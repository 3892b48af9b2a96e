//! The receiving daemon: how it names itself and how it reads the user's
//! answer to a transfer notification.
use vstd::prelude::*;
use crate::text::{ends_with, same_text, trim_end_matches};
use crate::device::plain_hostname;

verus! {

/// The daemon's settings: the port it listens on and the host name it was
/// started for.
pub struct Daemon {
    pub port: u16,
    pub hostname: String,
}

impl Daemon {
    /// A daemon listening on `port`.
    pub fn new(port: u16, hostname: String) -> (r: Daemon)
        ensures
            r.port == port,
            r.hostname == hostname,
    {
        Daemon { port, hostname }
    }
}

/// The host name a daemon announces over mDNS: the machine's host name, or
/// `localhost` when it is unknown, in the `.local.` domain.
pub open spec fn announced_host(machine: Option<Seq<char>>) -> Seq<char> {
    match machine {
        Some(h) => h + ".local."@,
        None => "localhost.local."@,
    }
}

/// The host name to announce for the machine's host name, if known.
pub fn announced_hostname(machine: &Option<String>) -> (r: String)
    ensures
        r@ == announced_host(
            match machine {
                Some(h) => Some(h@),
                None => None,
            },
        ),
{
    match machine {
        Some(h) => {
            let mut r = h.clone();
            r.append(".local.");
            r
        },
        None => "localhost.local.".to_owned(),
    }
}

/// The host name the daemon gives in its `INFO` answer: the machine's,
/// or `localhost` when it is unknown.
pub fn reported_hostname(machine: &Option<String>) -> (r: String)
    ensures
        r@ == match machine {
            Some(h) => h@,
            None => "localhost"@,
        },
{
    match machine {
        Some(h) => h.clone(),
        None => "localhost".to_owned(),
    }
}

/// Discovery shows a daemon under the host name it announced it for: the
/// machine's name, or `localhost`, as long as the name does not itself end
/// in `.local`.
pub proof fn law_announced_name_recovered(machine: Option<Seq<char>>)
    requires
        machine matches Some(h) ==> !ends_with(h, ".local"@),
    ensures
        plain_hostname(announced_host(machine)) == match machine {
            Some(h) => h,
            None => "localhost"@,
        },
{
    reveal_strlit(".local.");
    reveal_strlit(".local");
    reveal_strlit("localhost.local.");
    reveal_strlit("localhost");
    let h = match machine {
        Some(h) => h,
        None => "localhost"@,
    };
    if machine is None {
        assert(!ends_with(h, ".local"@)) by {
            assert(h.subrange(h.len() - 6, h.len() as int) =~= seq!['a', 'l', 'h', 'o', 's', 't']);
        }
    }
    let local = ".local"@;
    let dot = seq!['.'];
    let a = announced_host(machine);
    assert(a =~= h + local + dot);
    // the trailing dot goes
    assert(ends_with(a, dot)) by {
        assert(a.subrange(a.len() - 1, a.len() as int) =~= dot);
    }
    assert(a.subrange(0, a.len() - 1) =~= h + local);
    let b = h + local;
    assert(!ends_with(b, dot)) by {
        assert(b.subrange(b.len() - 1, b.len() as int)[0] == 'l');
    }
    assert(trim_end_matches(b, dot) == b);
    assert(a.subrange(0, a.len() - dot.len()) == b);
    assert(trim_end_matches(a, dot) == trim_end_matches(a.subrange(0, a.len() - dot.len()), dot));
    assert(trim_end_matches(a, dot) == b);
    // then the `.local` domain
    assert(ends_with(b, local)) by {
        assert(b.subrange(b.len() - 6, b.len() as int) =~= local);
    }
    assert(b.subrange(0, b.len() - 6) =~= h);
    assert(trim_end_matches(b, local) == trim_end_matches(h, local));
}

/// Whether the user's answer to a transfer notification accepts it: only
/// the action `accept` does; closing the notification does not.
pub fn notification_accepts(action: &Option<String>) -> (r: bool)
    ensures
        r == (action matches Some(a) && a@ == "accept"@),
{
    match action {
        Some(a) => same_text(a.as_str(), "accept"),
        None => false,
    }
}

/// The urgency of a desktop notification.
pub fn notification_urgency(is_error: bool) -> (r: &'static str)
    ensures
        r@ == (if is_error { "critical"@ } else { "normal"@ }),
{
    if is_error {
        "critical"
    } else {
        "normal"
    }
}

} // verus!
