//! The line protocol between a sending device and the receiving daemon.
//!
//! A sender opens a connection and writes one request line
//! `TRANSFER_REQUEST|<sender>|<file name>|<size>`; the daemon answers
//! `ACCEPTED` or `DECLINED`, receives the bytes and confirms with
//! `TRANSFER_COMPLETE` (or `ERROR|<reason>`). A peer may instead ask `INFO`,
//! which the daemon answers with `INFO|<host name>|Rustle|1.0`.
use vstd::prelude::*;
use crate::text::{
    decimal, has_char, lemma_decimal_shape, lemma_parse_decimal, lemma_split_join,
    lemma_split_nonempty, lemma_split_single, parse_u64, parse_u64_text, push_decimal,
    same_text, split, split_on, trim, trimmed, views, contains_char, trim_end,
    lemma_trim_end_concat, lemma_trim_newline, lemma_trim_start_keeps, all_digits, is_digit,
    join_pieces, law_split_joins_back, lemma_join_front,
};

verus! {

/// The mDNS service type under which daemons announce themselves.
pub const SERVICE_TYPE: &'static str = "_rustle._tcp.local.";

/// The instance name a daemon registers.
pub const INSTANCE_NAME: &'static str = "Rustle";

/// The query a peer sends to learn a daemon's host name.
pub const INFO_QUERY: &'static str = "INFO\n";

/// The query a peer sends to fetch a daemon's avatar picture.
pub const AVATAR_QUERY: &'static str = "GET_AVATAR\n";

/// The daemon's answer to a request line it does not understand.
pub const INVALID_REQUEST_REPLY: &'static str = "ERROR|Invalid request format\n";

/// The daemon's answer when the user accepts a transfer.
pub const ACCEPTED_REPLY: &'static str = "ACCEPTED\n";

/// The daemon's answer when the user declines a transfer.
pub const DECLINED_REPLY: &'static str = "DECLINED\n";

/// The daemon's confirmation once every byte has arrived.
pub const COMPLETE_REPLY: &'static str = "TRANSFER_COMPLETE\n";

/// A request line as the daemon understands it.
pub enum TransferRequest {
    /// `INFO`: the peer asks for the daemon's host name.
    Info,
    /// A well-formed transfer request.
    Transfer { sender: String, file_name: String, file_size: u64 },
    /// Anything that is neither `INFO` nor a four-field transfer request.
    Malformed,
    /// A four-field transfer request whose size field is not a number.
    BadSize { size_field: String },
}

/// The mathematical form of [`TransferRequest`].
pub enum RequestView {
    Info,
    Transfer { sender: Seq<char>, file_name: Seq<char>, file_size: u64 },
    Malformed,
    BadSize { size_field: Seq<char> },
}

impl View for TransferRequest {
    type V = RequestView;

    open spec fn view(&self) -> RequestView {
        match self {
            TransferRequest::Info => RequestView::Info,
            TransferRequest::Transfer { sender, file_name, file_size } => RequestView::Transfer {
                sender: sender@,
                file_name: file_name@,
                file_size: *file_size,
            },
            TransferRequest::Malformed => RequestView::Malformed,
            TransferRequest::BadSize { size_field } => RequestView::BadSize {
                size_field: size_field@,
            },
        }
    }
}

/// How the daemon reads a request line: it trims surrounding whitespace and
/// splits at `|`; a first field `INFO` asks for information, exactly four
/// fields starting with `TRANSFER_REQUEST` ask for a transfer of the file
/// named in the third field, whose size is the decimal number in the fourth.
pub open spec fn parse_request(line: Seq<char>) -> RequestView {
    let parts = split(trim(line), '|');
    if parts[0] == "INFO"@ {
        RequestView::Info
    } else if parts.len() != 4 || parts[0] != "TRANSFER_REQUEST"@ {
        RequestView::Malformed
    } else {
        match parse_u64(parts[3]) {
            Some(n) => RequestView::Transfer { sender: parts[1], file_name: parts[2], file_size: n },
            None => RequestView::BadSize { size_field: parts[3] },
        }
    }
}

/// Reads one request line.
pub fn parse_transfer_request(line: &str) -> (r: TransferRequest)
    ensures
        r@ == parse_request(line@),
{
    let t = trimmed(line);
    let parts = split_on(t.as_str(), '|');
    proof {
        lemma_split_nonempty(t@, '|');
        assert(views(parts@)[0] == parts@[0]@);
    }
    if same_text(parts[0].as_str(), "INFO") {
        return TransferRequest::Info;
    }
    if parts.len() != 4 || !same_text(parts[0].as_str(), "TRANSFER_REQUEST") {
        return TransferRequest::Malformed;
    }
    proof {
        assert(views(parts@)[1] == parts@[1]@);
        assert(views(parts@)[2] == parts@[2]@);
        assert(views(parts@)[3] == parts@[3]@);
    }
    match parse_u64_text(parts[3].as_str()) {
        Some(n) => TransferRequest::Transfer {
            sender: parts[1].clone(),
            file_name: parts[2].clone(),
            file_size: n,
        },
        None => TransferRequest::BadSize { size_field: parts[3].clone() },
    }
}


/// What the daemon answers to an `INFO` query.
pub open spec fn info_reply_text(hostname: Seq<char>) -> Seq<char> {
    "INFO|"@ + hostname + "|Rustle|1.0\n"@
}

/// The daemon's answer to an `INFO` query.
pub fn info_reply(hostname: &str) -> (r: String)
    ensures
        r@ == info_reply_text(hostname@),
{
    let mut r = String::new();
    r.append("INFO|");
    r.append(hostname);
    r.append("|Rustle|1.0\n");
    assert(r@ =~= info_reply_text(hostname@));
    r
}

/// The request line a sender writes.
pub open spec fn transfer_request_text(sender: Seq<char>, file_name: Seq<char>, size: u64) -> Seq<
    char,
> {
    "TRANSFER_REQUEST|"@ + sender + "|"@ + file_name + "|"@ + decimal(size as nat) + "\n"@
}

/// The request line asking to send `file_name` of `size` bytes.
pub fn transfer_request_line(sender: &str, file_name: &str, size: u64) -> (r: String)
    ensures
        r@ == transfer_request_text(sender@, file_name@, size),
{
    let mut r = String::new();
    r.append("TRANSFER_REQUEST|");
    r.append(sender);
    r.append("|");
    r.append(file_name);
    r.append("|");
    push_decimal(&mut r, size);
    r.append("\n");
    assert(r@ =~= transfer_request_text(sender@, file_name@, size));
    r
}

/// The daemon's answer to the user's decision on a transfer.
pub fn consent_reply(accepted: bool) -> (r: &'static str)
    ensures
        r@ == (if accepted { ACCEPTED_REPLY@ } else { DECLINED_REPLY@ }),
{
    if accepted {
        ACCEPTED_REPLY
    } else {
        DECLINED_REPLY
    }
}

/// The daemon's answer when receiving the file failed for `reason`.
pub open spec fn error_reply_text(reason: Seq<char>) -> Seq<char> {
    "ERROR|"@ + reason + "\n"@
}

/// The daemon's answer once receiving ended: the confirmation, or the error.
pub fn completion_reply(outcome: &Result<(), String>) -> (r: String)
    ensures
        r@ == match outcome {
            Ok(_) => COMPLETE_REPLY@,
            Err(reason) => error_reply_text(reason@),
        },
{
    match outcome {
        Ok(_) => COMPLETE_REPLY.to_owned(),
        Err(reason) => {
            let mut r = String::new();
            r.append("ERROR|");
            r.append(reason.as_str());
            r.append("\n");
            assert(r@ =~= error_reply_text(reason@));
            r
        },
    }
}

/// Whether the sender takes the daemon's answer as consent: the trimmed line
/// is exactly `ACCEPTED`.
pub open spec fn accepts(line: Seq<char>) -> bool {
    trim(line) == "ACCEPTED"@
}

/// Whether the sender takes the daemon's last line as confirmation: the
/// trimmed line is exactly `TRANSFER_COMPLETE`.
pub open spec fn confirms(line: Seq<char>) -> bool {
    trim(line) == "TRANSFER_COMPLETE"@
}

/// Reads the daemon's answer to a transfer request.
pub fn reply_accepts(line: &str) -> (r: bool)
    ensures
        r == accepts(line@),
{
    let t = trimmed(line);
    same_text(t.as_str(), "ACCEPTED")
}

/// Reads the daemon's last line after the file was sent.
pub fn reply_confirms(line: &str) -> (r: bool)
    ensures
        r == confirms(line@),
{
    let t = trimmed(line);
    same_text(t.as_str(), "TRANSFER_COMPLETE")
}

/// The host name in an answer to `INFO`: the trimmed line split at `|` has
/// at least three fields and the first is `INFO`.
pub open spec fn info_host(line: Seq<char>) -> Option<Seq<char>> {
    let parts = split(trim(line), '|');
    if parts.len() >= 3 && parts[0] == "INFO"@ {
        Some(parts[1])
    } else {
        None
    }
}

/// Reads a daemon's answer to `INFO`.
pub fn parse_info_reply(line: &str) -> (r: Option<String>)
    ensures
        r matches Some(h) ==> info_host(line@) == Some(h@),
        r is None ==> info_host(line@) is None,
{
    let t = trimmed(line);
    let parts = split_on(t.as_str(), '|');
    if parts.len() >= 3 && same_text(parts[0].as_str(), "INFO") {
        proof {
            assert(views(parts@)[0] == parts@[0]@);
            assert(views(parts@)[1] == parts@[1]@);
        }
        Some(parts[1].clone())
    } else {
        proof {
            if parts@.len() >= 3 {
                assert(views(parts@)[0] == parts@[0]@);
            }
        }
        None
    }
}

/// The largest avatar, exclusive, that a peer accepts.
pub const AVATAR_SIZE_LIMIT: u64 = 10_000_000;

/// The size announced in an avatar header `AVATAR|<size>`: at least two
/// fields after trimming and splitting at `|`, the first `AVATAR`, the second
/// (trimmed) a number between 1 and the limit.
pub open spec fn avatar_size(line: Seq<char>) -> Option<u64> {
    let parts = split(trim(line), '|');
    if parts.len() >= 2 && parts[0] == "AVATAR"@ {
        match parse_u64(trim(parts[1])) {
            Some(n) => if 0 < n && n < AVATAR_SIZE_LIMIT {
                Some(n)
            } else {
                None
            },
            None => None,
        }
    } else {
        None
    }
}

/// Reads the header line of an avatar answer.
pub fn parse_avatar_header(line: &str) -> (r: Option<u64>)
    ensures
        r == avatar_size(line@),
{
    let t = trimmed(line);
    let parts = split_on(t.as_str(), '|');
    if parts.len() >= 2 && same_text(parts[0].as_str(), "AVATAR") {
        proof {
            assert(views(parts@)[0] == parts@[0]@);
            assert(views(parts@)[1] == parts@[1]@);
        }
        let field = trimmed(parts[1].as_str());
        match parse_u64_text(field.as_str()) {
            Some(n) => if 0 < n && n < AVATAR_SIZE_LIMIT {
                Some(n)
            } else {
                None
            },
            None => None,
        }
    } else {
        proof {
            if parts@.len() >= 2 {
                assert(views(parts@)[0] == parts@[0]@);
            }
        }
        None
    }
}

/// The address a static peer is reached at: the entry itself when it holds a
/// `:`, else the entry followed by `:` and the configured port.
pub open spec fn peer_address_text(peer: Seq<char>, port: u16) -> Seq<char> {
    if has_char(peer, ':') {
        peer
    } else {
        peer + ":"@ + decimal(port as nat)
    }
}

/// The address to probe for a configured static peer.
pub fn peer_address(peer: &str, port: u16) -> (r: String)
    ensures
        r@ == peer_address_text(peer@, port),
        has_char(peer@, ':') ==> r@ == peer@,
        !has_char(peer@, ':') ==> r@.take(peer@.len() as int) == peer@,
        !has_char(peer@, ':') ==> r@[peer@.len() as int] == ':',
        !has_char(peer@, ':') ==> parse_u64(r@.skip(peer@.len() as int + 1)) == Some(port as u64),
{
    proof {
        law_peer_address_uses_port(peer@, port);
    }
    if contains_char(peer, ':') {
        peer.to_owned()
    } else {
        let mut r = peer.to_owned();
        r.append(":");
        push_decimal(&mut r, port as u64);
        assert(r@ =~= peer_address_text(peer@, port));
        r
    }
}

/// The socket address a sender connects to: an address holding `:` (IPv6)
/// goes in brackets, then `:` and the port.
pub open spec fn socket_address_text(ip: Seq<char>, port: u16) -> Seq<char> {
    if has_char(ip, ':') {
        "["@ + ip + "]:"@ + decimal(port as nat)
    } else {
        ip + ":"@ + decimal(port as nat)
    }
}

/// The socket address for a device's address and port.
pub fn socket_address(ip: &str, port: u16) -> (r: String)
    ensures
        r@ == socket_address_text(ip@, port),
        !has_char(ip@, ':') ==> r@.take(ip@.len() as int) == ip@,
        !has_char(ip@, ':') ==> r@[ip@.len() as int] == ':',
        !has_char(ip@, ':') ==> parse_u64(r@.skip(ip@.len() as int + 1)) == Some(port as u64),
        has_char(ip@, ':') ==> r@.subrange(1, ip@.len() as int + 1) == ip@,
        has_char(ip@, ':') ==> parse_u64(r@.skip(ip@.len() as int + 3)) == Some(port as u64),
{
    proof {
        law_socket_address_uses_port(ip@, port);
    }
    let mut r = String::new();
    if contains_char(ip, ':') {
        r.append("[");
        r.append(ip);
        r.append("]:");
    } else {
        r.append(ip);
        r.append(":");
    }
    push_decimal(&mut r, port as u64);
    assert(r@ =~= socket_address_text(ip@, port));
    r
}

/// `host:port`, the plain form the command-line sender connects to.
pub open spec fn host_port_text(host: Seq<char>, port: u16) -> Seq<char> {
    host + ":"@ + decimal(port as nat)
}

/// `host:port` for a host and a port.
pub fn host_port(host: &str, port: u16) -> (r: String)
    ensures
        r@ == host_port_text(host@, port),
        r@.take(host@.len() as int) == host@,
        r@[host@.len() as int] == ':',
        parse_u64(r@.skip(host@.len() as int + 1)) == Some(port as u64),
{
    proof {
        law_host_port_reads_back(host@, port);
    }
    let mut r = host.to_owned();
    r.append(":");
    push_decimal(&mut r, port as u64);
    assert(r@ =~= host_port_text(host@, port));
    r
}


// ---------------------------------------------------------------------------
// Laws of the protocol
// ---------------------------------------------------------------------------

proof fn lemma_no_bar_in_keywords()
    ensures
        !has_char("TRANSFER_REQUEST"@, '|'),
        !has_char("INFO"@, '|'),
        !has_char("Rustle"@, '|'),
        !has_char("1.0"@, '|'),
        "TRANSFER_REQUEST"@ != "INFO"@,
{
    reveal_strlit("TRANSFER_REQUEST");
    reveal_strlit("INFO");
    reveal_strlit("Rustle");
    reveal_strlit("1.0");
    assert("TRANSFER_REQUEST"@.len() != "INFO"@.len());
}

/// No digit is `|`.
proof fn lemma_digits_no_bar(d: Seq<char>)
    requires
        all_digits(d),
    ensures
        !has_char(d, '|'),
{
    if has_char(d, '|') {
        let i = choose|i: int| 0 <= i < d.len() && d[i] == '|';
        assert(is_digit(d[i]));
    }
}

/// A sender's request is read back by the daemon as exactly that transfer,
/// whenever neither the sender's name nor the file name holds `|`.
pub proof fn law_transfer_request_round_trip(sender: Seq<char>, file_name: Seq<char>, size: u64)
    requires
        !has_char(sender, '|'),
        !has_char(file_name, '|'),
    ensures
        parse_request(transfer_request_text(sender, file_name, size)) == (RequestView::Transfer {
            sender,
            file_name,
            file_size: size,
        }),
{
    reveal_strlit("TRANSFER_REQUEST|");
    reveal_strlit("TRANSFER_REQUEST");
    reveal_strlit("|");
    reveal_strlit("\n");
    lemma_no_bar_in_keywords();
    lemma_decimal_shape(size as nat);
    lemma_parse_decimal(size);
    let kw = "TRANSFER_REQUEST"@;
    let d = decimal(size as nat);
    let bar = seq!['|'];
    let body = kw + bar + sender + bar + file_name + bar + d;
    let line = transfer_request_text(sender, file_name, size);
    assert(line =~= body + seq!['\n']);
    // trimming removes only the final newline
    assert(is_digit(d[d.len() - 1]));
    assert(body.last() == d.last());
    lemma_trim_end_concat(body, seq!['\n']);
    lemma_trim_newline();
    assert(body + Seq::<char>::empty() =~= body);
    assert(line[0] == 'T');
    lemma_trim_start_keeps(line);
    assert(trim(line) == body);
    // splitting yields the four fields
    lemma_digits_no_bar(d);
    let rest2 = file_name + bar + d;
    let rest1 = sender + bar + rest2;
    assert(body =~= kw + bar + rest1);
    assert(rest1 =~= sender + bar + rest2);
    lemma_split_join(kw, rest1, '|');
    lemma_split_join(sender, rest2, '|');
    lemma_split_join(file_name, d, '|');
    lemma_split_single(kw, '|');
    lemma_split_single(sender, '|');
    lemma_split_single(file_name, '|');
    lemma_split_single(d, '|');
    let parts = split(body, '|');
    assert(parts =~= seq![kw, sender, file_name, d]);
}

/// The daemon reads a transfer only from a line that is, once trimmed,
/// exactly `TRANSFER_REQUEST`, the sender, the file name and a number that
/// reads as the size, separated by `|`, with no `|` inside the fields.
pub proof fn law_transfer_request_fields(line: Seq<char>)
    ensures
        parse_request(line) matches RequestView::Transfer { sender, file_name, file_size } ==> {
            &&& !has_char(sender, '|')
            &&& !has_char(file_name, '|')
            &&& exists|d: Seq<char>|
                parse_u64(d) == Some(file_size) && !has_char(d, '|') && #[trigger] trim(line)
                    == "TRANSFER_REQUEST"@ + seq!['|'] + sender + seq!['|'] + file_name + seq!['|']
                    + d
        },
{
    let t = trim(line);
    let parts = split(t, '|');
    law_split_joins_back(t, '|');
    if parse_request(line) is Transfer {
        assert(parts.len() == 4);
        let p3 = parts.drop_last();
        let p2 = p3.drop_last();
        let p1 = p2.drop_last();
        assert(p1 =~= seq![parts[0]]);
        assert(join_pieces(p1, '|') == parts[0]);
        assert(join_pieces(p2, '|') == join_pieces(p1, '|') + seq!['|'] + parts[1]);
        assert(join_pieces(p3, '|') == join_pieces(p2, '|') + seq!['|'] + parts[2]);
        assert(join_pieces(parts, '|') == join_pieces(p3, '|') + seq!['|'] + parts[3]);
        assert(!has_char(parts[1], '|'));
        assert(!has_char(parts[2], '|'));
        assert(!has_char(parts[3], '|'));
        assert(t == "TRANSFER_REQUEST"@ + seq!['|'] + parts[1] + seq!['|'] + parts[2] + seq!['|']
            + parts[3]);
    }
}

/// The daemon's host name is read from an `INFO` answer only when the
/// trimmed line starts with `INFO|`, then the name, which holds no `|`, then
/// another `|`.
pub proof fn law_info_host_fields(line: Seq<char>)
    ensures
        info_host(line) matches Some(h) ==> {
            &&& !has_char(h, '|')
            &&& exists|rest: Seq<char>| #[trigger] trim(line) == "INFO"@ + seq!['|'] + h + seq!['|'] + rest
        },
{
    let t = trim(line);
    let parts = split(t, '|');
    law_split_joins_back(t, '|');
    if info_host(line) is Some {
        let tail = parts.drop_first();
        lemma_join_front(parts, '|');
        lemma_join_front(tail, '|');
        assert(tail[0] == parts[1]);
        assert(!has_char(parts[1], '|'));
        let rest = join_pieces(tail.drop_first(), '|');
        assert(t == "INFO"@ + seq!['|'] + parts[1] + seq!['|'] + rest);
    }
}

/// An avatar size is read only from a line that, once trimmed, starts with
/// `AVATAR|` followed by a field without `|` that, trimmed, reads as that
/// size; and the size is between 1 and the limit.
pub proof fn law_avatar_size_fields(line: Seq<char>)
    ensures
        avatar_size(line) matches Some(n) ==> {
            &&& 0 < n < AVATAR_SIZE_LIMIT
            &&& exists|field: Seq<char>, rest: Seq<char>|
                !has_char(field, '|') && parse_u64(trim(field)) == Some(n) && (#[trigger] trim(line)
                    == "AVATAR"@ + seq!['|'] + field + rest) && (rest.len() == 0 || rest[0] == '|')
        },
{
    let t = trim(line);
    let parts = split(t, '|');
    law_split_joins_back(t, '|');
    if avatar_size(line) is Some {
        let tail = parts.drop_first();
        lemma_join_front(parts, '|');
        assert(tail[0] == parts[1]);
        assert(!has_char(parts[1], '|'));
        if tail.len() >= 2 {
            lemma_join_front(tail, '|');
            let rest = seq!['|'] + join_pieces(tail.drop_first(), '|');
            assert(t =~= "AVATAR"@ + seq!['|'] + parts[1] + rest);
        } else {
            assert(join_pieces(tail, '|') == tail[0]);
            assert(t =~= "AVATAR"@ + seq!['|'] + parts[1] + Seq::<char>::empty());
        }
    }
}

/// A daemon's answer to `INFO` gives the asking peer the daemon's host name,
/// whenever the name holds no `|`.
pub proof fn law_info_round_trip(hostname: Seq<char>)
    requires
        !has_char(hostname, '|'),
    ensures
        info_host(info_reply_text(hostname)) == Some(hostname),
{
    reveal_strlit("INFO|");
    reveal_strlit("INFO");
    reveal_strlit("|Rustle|1.0\n");
    reveal_strlit("Rustle");
    reveal_strlit("1.0");
    lemma_no_bar_in_keywords();
    let bar = seq!['|'];
    let kw = "INFO"@;
    let r = "Rustle"@;
    let v = "1.0"@;
    let body = kw + bar + hostname + bar + r + bar + v;
    let line = info_reply_text(hostname);
    assert(line =~= body + seq!['\n']);
    assert(body.last() == '0');
    lemma_trim_end_concat(body, seq!['\n']);
    lemma_trim_newline();
    assert(body + Seq::<char>::empty() =~= body);
    assert(line[0] == 'I');
    lemma_trim_start_keeps(line);
    assert(trim(line) == body);
    let rest2 = r + bar + v;
    let rest1 = hostname + bar + rest2;
    assert(body =~= kw + bar + rest1);
    lemma_split_join(kw, rest1, '|');
    lemma_split_join(hostname, rest2, '|');
    lemma_split_join(r, v, '|');
    lemma_split_single(kw, '|');
    lemma_split_single(hostname, '|');
    lemma_split_single(r, '|');
    lemma_split_single(v, '|');
    assert(split(body, '|') =~= seq![kw, hostname, r, v]);
}

/// An avatar header `AVATAR|<size>` is read back as its size whenever the size
/// is between 1 and the limit, and refused otherwise.
pub proof fn law_avatar_header_reads_size(size: u64)
    ensures
        avatar_size("AVATAR|"@ + decimal(size as nat) + "\n"@) == if 0 < size
            && size < AVATAR_SIZE_LIMIT {
            Some(size)
        } else {
            None
        },
{
    reveal_strlit("AVATAR|");
    reveal_strlit("AVATAR");
    reveal_strlit("\n");
    let kw = "AVATAR"@;
    let bar = seq!['|'];
    let d = decimal(size as nat);
    lemma_decimal_shape(size as nat);
    lemma_parse_decimal(size);
    lemma_digits_no_bar(d);
    let body = kw + bar + d;
    let line = "AVATAR|"@ + d + "\n"@;
    assert(line =~= body + seq!['\n']);
    assert(is_digit(d[d.len() - 1]));
    assert(body.last() == d.last());
    lemma_trim_end_concat(body, seq!['\n']);
    lemma_trim_newline();
    assert(body + Seq::<char>::empty() =~= body);
    assert(line[0] == 'A');
    lemma_trim_start_keeps(line);
    assert(trim(line) == body);
    assert(!has_char(kw, '|'));
    lemma_split_join(kw, d, '|');
    lemma_split_single(kw, '|');
    lemma_split_single(d, '|');
    assert(split(body, '|') =~= seq![kw, d]);
    assert(is_digit(d[0]));
    lemma_trim_start_keeps(d);
    lemma_trim_end_concat(d, Seq::<char>::empty());
    assert(d + Seq::<char>::empty() =~= d);
    assert(trim(d) == d);
}

/// The query a peer sends to learn a daemon's name is read as `INFO`.
pub proof fn law_info_query_recognized()
    ensures
        parse_request(INFO_QUERY@) == RequestView::Info,
{
    reveal_strlit("INFO\n");
    reveal_strlit("INFO");
    lemma_no_bar_in_keywords();
    let kw = "INFO"@;
    assert(INFO_QUERY@ =~= kw + seq!['\n']);
    lemma_trim_end_concat(kw, seq!['\n']);
    lemma_trim_newline();
    assert(kw + Seq::<char>::empty() =~= kw);
    lemma_trim_start_keeps(INFO_QUERY@);
    lemma_split_single(kw, '|');
}

/// The daemon does not answer avatar queries: it refuses them as malformed.
pub proof fn law_avatar_query_refused()
    ensures
        parse_request(AVATAR_QUERY@) == RequestView::Malformed,
{
    reveal_strlit("GET_AVATAR\n");
    reveal_strlit("GET_AVATAR");
    reveal_strlit("INFO");
    let kw = "GET_AVATAR"@;
    assert(AVATAR_QUERY@ =~= kw + seq!['\n']);
    lemma_trim_end_concat(kw, seq!['\n']);
    lemma_trim_newline();
    assert(kw + Seq::<char>::empty() =~= kw);
    lemma_trim_start_keeps(AVATAR_QUERY@);
    assert(!has_char(kw, '|'));
    lemma_split_single(kw, '|');
    assert(kw.len() != "INFO"@.len());
}

/// The sender reads the daemon's consent replies as meant: `ACCEPTED` as
/// consent, `DECLINED` and the refusal of a malformed request as no consent;
/// and the completion line as confirmation, an error line as none.
pub proof fn law_replies_understood(reason: Seq<char>)
    ensures
        accepts(ACCEPTED_REPLY@),
        !accepts(DECLINED_REPLY@),
        !accepts(INVALID_REQUEST_REPLY@),
        confirms(COMPLETE_REPLY@),
        !confirms(error_reply_text(reason)),
{
    reveal_strlit("ACCEPTED\n");
    reveal_strlit("ACCEPTED");
    reveal_strlit("DECLINED\n");
    reveal_strlit("ERROR|Invalid request format\n");
    reveal_strlit("TRANSFER_COMPLETE\n");
    reveal_strlit("TRANSFER_COMPLETE");
    reveal_strlit("ERROR|");
    reveal_strlit("\n");
    let nl = seq!['\n'];
    lemma_trim_newline();
    let acc = "ACCEPTED"@;
    assert(ACCEPTED_REPLY@ =~= acc + nl);
    lemma_trim_end_concat(acc, nl);
    assert(acc + Seq::<char>::empty() =~= acc);
    lemma_trim_start_keeps(ACCEPTED_REPLY@);
    let done = "TRANSFER_COMPLETE"@;
    assert(COMPLETE_REPLY@ =~= done + nl);
    lemma_trim_end_concat(done, nl);
    assert(done + Seq::<char>::empty() =~= done);
    lemma_trim_start_keeps(COMPLETE_REPLY@);
    // lines that start with a character other than the expected one
    let dec = DECLINED_REPLY@;
    lemma_trim_start_keeps(dec);
    lemma_trim_end_concat(dec.take(1), dec.skip(1));
    assert(dec.take(1) + dec.skip(1) =~= dec);
    assert(trim(dec)[0] == 'D');
    let inv = INVALID_REQUEST_REPLY@;
    lemma_trim_start_keeps(inv);
    lemma_trim_end_concat(inv.take(1), inv.skip(1));
    assert(inv.take(1) + inv.skip(1) =~= inv);
    assert(trim(inv)[0] == 'E');
    let err = error_reply_text(reason);
    assert(err[0] == 'E');
    lemma_trim_start_keeps(err);
    lemma_trim_end_concat(err.take(1), err.skip(1));
    assert(err.take(1) + err.skip(1) =~= err);
    assert(trim(err)[0] == 'E');
}


// ---------------------------------------------------------------------------
// Laws of addresses
// ---------------------------------------------------------------------------

/// `host`, `:` and the decimal port: the host comes first, then `:`, and the
/// rest reads back as the port.
proof fn lemma_port_suffix(host: Seq<char>, port: u16)
    ensures
        ({
            let t = host + ":"@ + decimal(port as nat);
            &&& t.take(host.len() as int) == host
            &&& t[host.len() as int] == ':'
            &&& parse_u64(t.skip(host.len() as int + 1)) == Some(port as u64)
        }),
{
    reveal_strlit(":");
    lemma_parse_decimal(port as u64);
    let t = host + ":"@ + decimal(port as nat);
    assert(t.take(host.len() as int) =~= host);
    assert(t.skip(host.len() as int + 1) =~= decimal(port as nat));
}

/// `host:port` is the host, `:`, and a number that reads back as the port,
/// whatever the port.
pub proof fn law_host_port_reads_back(host: Seq<char>, port: u16)
    ensures
        host_port_text(host, port).take(host.len() as int) == host,
        host_port_text(host, port)[host.len() as int] == ':',
        parse_u64(host_port_text(host, port).skip(host.len() as int + 1)) == Some(port as u64),
{
    lemma_port_suffix(host, port);
}

/// A static peer is probed at the entry itself when it names a port (holds
/// `:`), else at the entry, `:` and the configured port, which reads back as
/// that port.
pub proof fn law_peer_address_uses_port(peer: Seq<char>, port: u16)
    ensures
        has_char(peer, ':') ==> peer_address_text(peer, port) == peer,
        !has_char(peer, ':') ==> peer_address_text(peer, port).take(peer.len() as int) == peer,
        !has_char(peer, ':') ==> peer_address_text(peer, port)[peer.len() as int] == ':',
        !has_char(peer, ':') ==> parse_u64(peer_address_text(peer, port).skip(peer.len() as int + 1))
            == Some(port as u64),
{
    lemma_port_suffix(peer, port);
}

/// The socket address of a device is its address (in brackets when it holds
/// `:`), then `:` and a number that reads back as the device's port.
pub proof fn law_socket_address_uses_port(ip: Seq<char>, port: u16)
    ensures
        !has_char(ip, ':') ==> socket_address_text(ip, port).take(ip.len() as int) == ip,
        !has_char(ip, ':') ==> socket_address_text(ip, port)[ip.len() as int] == ':',
        !has_char(ip, ':') ==> parse_u64(socket_address_text(ip, port).skip(ip.len() as int + 1)) == Some(
            port as u64,
        ),
        has_char(ip, ':') ==> socket_address_text(ip, port)[0] == '[',
        has_char(ip, ':') ==> socket_address_text(ip, port).subrange(1, ip.len() as int + 1) == ip,
        has_char(ip, ':') ==> socket_address_text(ip, port)[ip.len() as int + 1] == ']',
        has_char(ip, ':') ==> socket_address_text(ip, port)[ip.len() as int + 2] == ':',
        has_char(ip, ':') ==> parse_u64(socket_address_text(ip, port).skip(ip.len() as int + 3)) == Some(
            port as u64,
        ),
{
    reveal_strlit("[");
    reveal_strlit("]:");
    lemma_port_suffix(ip, port);
    lemma_parse_decimal(port as u64);
    if has_char(ip, ':') {
        let t = socket_address_text(ip, port);
        assert(t =~= seq!['['] + ip + seq![']', ':'] + decimal(port as nat));
        assert(t.subrange(1, ip.len() as int + 1) =~= ip);
        assert(t.skip(ip.len() as int + 3) =~= decimal(port as nat));
    }
}

} // verus!
