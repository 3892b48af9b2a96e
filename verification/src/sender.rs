//! The sending side's own decisions: what a file is called on the wire, and
//! which device pictures the dialog still has to load.
use vstd::prelude::*;
use crate::device::{copy_bytes, DiscoveredDevice};
use crate::text::{chars_of, has_char, holds_text};

verus! {

/// The name `Path::file_name` gives to the last component of a path.
pub uninterp spec fn path_file_name(path: Seq<char>) -> Option<Seq<char>>;

/// The final component of a path through `std::path::Path::file_name`,
/// when there is one (a path ending in `..` or naming the root has none).
/// A component holds no `/`. The contract names the result; it does not
/// restate how `Path` splits components.
#[verifier::external_body]
fn file_name_of(path: &str) -> (r: Option<String>)
    ensures
        r matches Some(n) ==> path_file_name(path@) == Some(n@) && !has_char(n@, '/'),
        r is None ==> path_file_name(path@) is None,
{
    match std::path::Path::new(path).file_name() {
        Some(name) => match name.to_str() {
            Some(text) => Some(text.to_owned()),
            None => None,
        },
        None => None,
    }
}

/// The name a file is announced under: its file name, or `unknown`.
pub open spec fn announced_name(path: Seq<char>) -> Seq<char> {
    match path_file_name(path) {
        Some(n) => n,
        None => "unknown"@,
    }
}

/// The name under which the file at `path` is offered.
pub fn file_label(path: &str) -> (r: String)
    ensures
        r@ == announced_name(path@),
{
    match file_name_of(path) {
        Some(n) => n,
        None => "unknown".to_owned(),
    }
}

/// The file name for the dialog's request, which it refuses to send without.
pub fn file_name_for_request(path: &str) -> (r: Option<String>)
    ensures
        r matches Some(n) ==> path_file_name(path@) == Some(n@),
        r is None ==> path_file_name(path@) is None,
{
    file_name_of(path)
}

/// The key a device's picture is cached under: host name, `:`, address.
pub open spec fn avatar_key_text(hostname: Seq<char>, ip: Seq<char>) -> Seq<char> {
    hostname + ":"@ + ip
}

/// The cache key of a device's picture.
pub fn avatar_key(device: &DiscoveredDevice) -> (r: String)
    ensures
        r@ == avatar_key_text(device.hostname@, device.ip@),
{
    let mut r = device.hostname.clone();
    r.append(":");
    r.append(device.ip.as_str());
    r
}

/// The devices whose picture the dialog still has to load: those that
/// brought one and whose key is not cached yet, with key and picture, in
/// list order.
pub open spec fn pending_avatars(devices: Seq<DiscoveredDevice>, cached: Seq<String>) -> Seq<
    (Seq<char>, Seq<u8>),
>
    decreases devices.len(),
{
    if devices.len() == 0 {
        Seq::empty()
    } else {
        let rest = pending_avatars(devices.drop_last(), cached);
        let d = devices.last();
        let key = avatar_key_text(d.hostname@, d.ip@);
        match d.avatar_data {
            Some(data) => if !holds_text(cached, key) {
                rest.push((key, data@))
            } else {
                rest
            },
            None => rest,
        }
    }
}

/// Whether `key` and `data` are the cache key and the picture of a device of
/// `devices` that brought a picture and whose key is not cached.
pub open spec fn brought_by_uncached_device(
    devices: Seq<DiscoveredDevice>,
    cached: Seq<String>,
    key: Seq<char>,
    data: Seq<u8>,
) -> bool {
    exists|i: int|
        0 <= i < devices.len() && (#[trigger] devices[i]).avatar_data is Some && !holds_text(
            cached,
            avatar_key_text(devices[i].hostname@, devices[i].ip@),
        ) && key == avatar_key_text(devices[i].hostname@, devices[i].ip@) && data
            == devices[i].avatar_data->0@
}

/// Every device that brought a picture whose key is not cached has its key
/// and picture among the pending pictures; and every pending entry is the key
/// and picture of such a device.
pub proof fn law_pending_avatars_members(devices: Seq<DiscoveredDevice>, cached: Seq<String>)
    ensures
        forall|i: int|
            0 <= i < devices.len() && (#[trigger] devices[i]).avatar_data is Some && !holds_text(
                cached,
                avatar_key_text(devices[i].hostname@, devices[i].ip@),
            ) ==> pending_avatars(devices, cached).contains(
                (avatar_key_text(devices[i].hostname@, devices[i].ip@), devices[i].avatar_data->0@),
            ),
        forall|k: int|
            0 <= k < pending_avatars(devices, cached).len() ==> exists|i: int|
                0 <= i < devices.len() && (#[trigger] devices[i]).avatar_data is Some && !holds_text(
                    cached,
                    avatar_key_text(devices[i].hostname@, devices[i].ip@),
                ) && #[trigger] pending_avatars(devices, cached)[k] == (
                    avatar_key_text(devices[i].hostname@, devices[i].ip@),
                    devices[i].avatar_data->0@,
                ),
    decreases devices.len(),
{
    if devices.len() > 0 {
        let init = devices.drop_last();
        let n = devices.len() - 1;
        law_pending_avatars_members(init, cached);
        let rest = pending_avatars(init, cached);
        let all = pending_avatars(devices, cached);
        let d = devices[n];
        let key = avatar_key_text(d.hostname@, d.ip@);
        let wanted = d.avatar_data is Some && !holds_text(cached, key);
        assert(d == devices.last());
        if wanted {
            assert(all == rest.push((key, d.avatar_data->0@)));
        } else {
            assert(all == rest);
        }
        assert forall|i: int|
            0 <= i < devices.len() && (#[trigger] devices[i]).avatar_data is Some && !holds_text(
                cached,
                avatar_key_text(devices[i].hostname@, devices[i].ip@),
            ) implies all.contains(
            (avatar_key_text(devices[i].hostname@, devices[i].ip@), devices[i].avatar_data->0@),
        ) by {
            let e = (avatar_key_text(devices[i].hostname@, devices[i].ip@), devices[i].avatar_data->0@);
            if i < n {
                assert(init[i] == devices[i]);
                assert(rest.contains(e));
                let j = choose|j: int| 0 <= j < rest.len() && rest[j] == e;
                assert(all[j] == e);
            } else {
                assert(all[all.len() - 1] == e);
            }
        }
        assert forall|k: int| 0 <= k < all.len() implies exists|i: int|
            0 <= i < devices.len() && (#[trigger] devices[i]).avatar_data is Some && !holds_text(
                cached,
                avatar_key_text(devices[i].hostname@, devices[i].ip@),
            ) && #[trigger] all[k] == (
                avatar_key_text(devices[i].hostname@, devices[i].ip@),
                devices[i].avatar_data->0@,
            ) by {
            if k < rest.len() {
                assert(all[k] == rest[k]);
                let i = choose|i: int|
                    0 <= i < init.len() && (#[trigger] init[i]).avatar_data is Some && !holds_text(
                        cached,
                        avatar_key_text(init[i].hostname@, init[i].ip@),
                    ) && #[trigger] rest[k] == (
                        avatar_key_text(init[i].hostname@, init[i].ip@),
                        init[i].avatar_data->0@,
                    );
                assert(devices[i] == init[i]);
            } else {
                assert(all[k] == (key, d.avatar_data->0@));
                assert(devices[n] == d);
            }
        }
    }
}

/// Whether `key` is one of `cached`.
fn is_cached(cached: &Vec<String>, key: &str) -> (r: bool)
    ensures
        r == holds_text(cached@, key@),
{
    let mut i: usize = 0;
    while i < cached.len()
        invariant
            i <= cached@.len(),
            forall|j: int| 0 <= j < i ==> #[trigger] cached@[j]@ != key@,
        decreases cached@.len() - i,
    {
        if crate::text::same_text(cached[i].as_str(), key) {
            return true;
        }
        i = i + 1;
    }
    false
}

/// The pictures to load before drawing the device list.
pub fn avatars_to_load(devices: &Vec<DiscoveredDevice>, cached: &Vec<String>) -> (r: Vec<(String, Vec<u8>)>)
    ensures
        r@.map_values(|e: (String, Vec<u8>)| (e.0@, e.1@)) == pending_avatars(devices@, cached@),
        forall|i: int|
            0 <= i < devices@.len() && (#[trigger] devices@[i]).avatar_data is Some && !holds_text(
                cached@,
                avatar_key_text(devices@[i].hostname@, devices@[i].ip@),
            ) ==> exists|k: int|
                0 <= k < r@.len() && (#[trigger] r@[k]).0@ == avatar_key_text(
                    devices@[i].hostname@,
                    devices@[i].ip@,
                ) && r@[k].1@ == devices@[i].avatar_data->0@,
        forall|k: int|
            0 <= k < r@.len() ==> brought_by_uncached_device(
                devices@,
                cached@,
                (#[trigger] r@[k]).0@,
                r@[k].1@,
            ),
{
    let mut r: Vec<(String, Vec<u8>)> = Vec::new();
    let mut i: usize = 0;
    while i < devices.len()
        invariant
            i <= devices@.len(),
            r@.map_values(|e: (String, Vec<u8>)| (e.0@, e.1@)) == pending_avatars(devices@.take(i as int), cached@),
        decreases devices@.len() - i,
    {
        let ghost before = r@.map_values(|e: (String, Vec<u8>)| (e.0@, e.1@));
        assert(devices@.take(i + 1).drop_last() =~= devices@.take(i as int));
        assert(devices@.take(i + 1).last() == devices@[i as int]);
        let d = &devices[i];
        match &d.avatar_data {
            Some(data) => {
                let key = avatar_key(d);
                if !is_cached(cached, key.as_str()) {
                    let ghost kv = key@;
                    r.push((key, copy_bytes(data)));
                    assert(r@.map_values(|e: (String, Vec<u8>)| (e.0@, e.1@)) =~= before.push((kv, data@)));
                }
            },
            None => {},
        }
        i = i + 1;
    }
    assert(devices@.take(i as int) =~= devices@);
    proof {
        let pv = r@.map_values(|e: (String, Vec<u8>)| (e.0@, e.1@));
        law_pending_avatars_members(devices@, cached@);
        assert forall|i: int|
            0 <= i < devices@.len() && (#[trigger] devices@[i]).avatar_data is Some && !holds_text(
                cached@,
                avatar_key_text(devices@[i].hostname@, devices@[i].ip@),
            ) implies exists|k: int|
                0 <= k < r@.len() && (#[trigger] r@[k]).0@ == avatar_key_text(
                    devices@[i].hostname@,
                    devices@[i].ip@,
                ) && r@[k].1@ == devices@[i].avatar_data->0@ by {
            let e = (avatar_key_text(devices@[i].hostname@, devices@[i].ip@), devices@[i].avatar_data->0@);
            assert(pv.contains(e));
            let k = choose|k: int| 0 <= k < pv.len() && pv[k] == e;
            assert(pv[k] == (r@[k].0@, r@[k].1@));
        }
        assert forall|k: int| 0 <= k < r@.len() implies brought_by_uncached_device(
            devices@,
            cached@,
            (#[trigger] r@[k]).0@,
            r@[k].1@,
        ) by {
            assert(pv[k] == (r@[k].0@, r@[k].1@));
            let i = choose|i: int|
                0 <= i < devices@.len() && (#[trigger] devices@[i]).avatar_data is Some && !holds_text(
                    cached@,
                    avatar_key_text(devices@[i].hostname@, devices@[i].ip@),
                ) && #[trigger] pending_avatars(devices@, cached@)[k] == (
                    avatar_key_text(devices@[i].hostname@, devices@[i].ip@),
                    devices@[i].avatar_data->0@,
                );
            assert(r@[k].0@ == avatar_key_text(devices@[i].hostname@, devices@[i].ip@));
            assert(r@[k].1@ == devices@[i].avatar_data->0@);
        }
    }
    r
}

/// The letter shown for a device without a picture: the first character of
/// its name, or `?` for an empty name.
pub fn name_initial(name: &str) -> (r: char)
    ensures
        r == if name@.len() > 0 { name@[0] } else { '?' },
{
    let v = chars_of(name);
    if v.len() > 0 {
        v[0]
    } else {
        '?'
    }
}

} // verus!
