//! What the command-line client decides: which address to ask, how to read
//! a list of backends, what to show of its targets and of the certificates it
//! was sent.

use vstd::prelude::*;
use vstd::string::*;
use crate::cache::CacheStats;
use crate::config::{target_index, ClientConfig, ClientTarget};
use crate::text::{
    chars_of, concat, concat3, first_position, lemma_first_position_is, str_eq, string_of_range,
    trim, trimmed,
};
use crate::types::{
    items_view, strings_view, text_view, CacheItem, CacheItemView, RefreshRequest,
};

verus! {

/// The query that asks for the certificates that expire beyond and within
/// the bounds given: nothing where no bound is given.
pub open spec fn cache_query(beyond: Option<Seq<char>>, within: Option<Seq<char>>) -> Seq<char> {
    match (beyond, within) {
        (Some(b), Some(w)) => "?beyond="@ + b + "&within="@ + w,
        (Some(b), None) => "?beyond="@ + b,
        (None, Some(w)) => "?within="@ + w,
        (None, None) => Seq::empty(),
    }
}

/// The characters of an optional text.
pub open spec fn option_view(text: Option<&str>) -> Option<Seq<char>> {
    match text {
        Some(t) => Some(t@),
        None => None,
    }
}

/// The address of `path` on the server at `address`.
pub fn endpoint(address: &str, path: &str) -> (r: String)
    ensures
        r@ == address@ + path@,
{
    concat(address, path)
}

/// The address that lists the certificates on the server at `address`, with
/// the bounds given as its query.
pub fn cache_url(address: &str, beyond: Option<&str>, within: Option<&str>) -> (r: String)
    ensures
        r@ == address@ + "/v1/cache"@ + cache_query(option_view(beyond), option_view(within)),
{
    let base = concat(address, "/v1/cache");
    match beyond {
        Some(b) => {
            let front = concat3(base.as_str(), "?beyond=", b);
            match within {
                Some(w) => {
                    let r = concat3(front.as_str(), "&within=", w);
                    assert(r@ =~= address@ + "/v1/cache"@ + ("?beyond="@ + b@ + "&within="@ + w@));
                    r
                },
                None => {
                    assert(front@ =~= address@ + "/v1/cache"@ + ("?beyond="@ + b@));
                    front
                },
            }
        },
        None => match within {
            Some(w) => {
                let r = concat3(base.as_str(), "?within=", w);
                assert(r@ =~= address@ + "/v1/cache"@ + ("?within="@ + w@));
                r
            },
            None => {
                assert(base@ =~= address@ + "/v1/cache"@ + Seq::<char>::empty());
                base
            },
        },
    }
}

/// The pieces of `s` between the occurrences of `c`.
pub open spec fn pieces(s: Seq<char>, c: char) -> Seq<Seq<char>>
    decreases s.len(),
{
    let p = first_position(s, c);
    if 0 <= p < s.len() {
        seq![s.subrange(0, p)] + pieces(s.subrange(p + 1, s.len() as int), c)
    } else {
        seq![s]
    }
}

/// The names in a list of backends: the pieces between the commas, each
/// without the white space around it.
pub open spec fn listed_backends(list: Seq<char>) -> Seq<Seq<char>> {
    pieces(list, ',').map_values(|piece: Seq<char>| trimmed(piece))
}

/// The pieces of `s` between the occurrences of `c`.
pub fn split(s: &str, c: char) -> (r: Vec<String>)
    ensures
        strings_view(r@) == pieces(s@, c),
{
    let chars = chars_of(s);
    let ghost all = chars@;
    let n: usize = chars.len();
    let mut out: Vec<String> = Vec::new();
    let mut start: usize = 0;
    let mut i: usize = 0;
    proof {
        assert(all.subrange(0, n as int) =~= all);
        assert(strings_view(out@) + pieces(all, c) =~= pieces(all, c));
    }
    while i < n
        invariant
            chars@ == all,
            n == all.len(),
            start <= i <= n,
            forall|j: int| start <= j < i ==> all[j] != c,
            strings_view(out@) + pieces(all.subrange(start as int, n as int), c) == pieces(all, c),
        decreases n - i,
    {
        if chars[i] == c {
            let piece = string_of_range(&chars, start, i);
            proof {
                let rest = all.subrange(start as int, n as int);
                assert forall|j: int| 0 <= j < i - start implies rest[j] != c by {
                    assert(rest[j] == all[start + j]);
                }
                assert(rest[i - start] == c);
                lemma_first_position_is(rest, c, i - start);
                assert(rest.subrange(0, i - start) =~= all.subrange(start as int, i as int));
                assert(rest.subrange(i - start + 1, rest.len() as int) =~= all.subrange(
                    i + 1,
                    n as int,
                ));
                assert(strings_view(out@.push(piece)) =~= strings_view(out@).push(piece@));
                assert(strings_view(out@).push(piece@) + pieces(all.subrange(i + 1, n as int), c)
                    =~= strings_view(out@) + (seq![piece@] + pieces(
                    all.subrange(i + 1, n as int),
                    c,
                )));
            }
            out.push(piece);
            start = i + 1;
        }
        i += 1;
    }
    let last = string_of_range(&chars, start, n);
    proof {
        let rest = all.subrange(start as int, n as int);
        assert forall|j: int| 0 <= j < rest.len() implies rest[j] != c by {
            assert(rest[j] == all[start + j]);
        }
        lemma_first_position_is(rest, c, rest.len() as int);
        assert(strings_view(out@.push(last)) =~= strings_view(out@) + seq![rest]);
    }
    out.push(last);
    out
}

/// The names in a list of backends separated by commas.
pub fn backend_names(list: &str) -> (r: Vec<String>)
    ensures
        strings_view(r@) == listed_backends(list@),
{
    let parts = split(list, ',');
    let mut out: Vec<String> = Vec::new();
    let mut i: usize = 0;
    while i < parts.len()
        invariant
            i <= parts.len(),
            out.len() == i,
            forall|j: int| 0 <= j < i ==> (#[trigger] out@[j])@ == trimmed(parts@[j]@),
        decreases parts.len() - i,
    {
        out.push(trim(parts[i].as_str()));
        i += 1;
    }
    proof {
        assert(strings_view(out@) =~= strings_view(parts@).map_values(
            |piece: Seq<char>| trimmed(piece),
        ));
    }
    out
}

/// The request that asks for a refresh of the backends in `list`, or of all
/// backends where there is no list.
pub fn refresh_request(list: Option<&str>) -> (r: RefreshRequest)
    ensures
        match r.backends {
            Some(names) => list matches Some(l) && strings_view(names@) == listed_backends(l@),
            None => list is None,
        },
{
    match list {
        Some(l) => RefreshRequest { backends: Some(backend_names(l)) },
        None => RefreshRequest { backends: None },
    }
}

/// Whether a certificate expired a whole day or more before `now`.
pub open spec fn shown_expired(item: CacheItemView, now: int) -> bool {
    item.not_after - now <= -86400
}

/// Whether a certificate is not shown as expired and expires less than
/// thirty-one days after `now`.
pub open spec fn shown_expiring(item: CacheItemView, now: int) -> bool {
    -86400 < item.not_after - now < 2678400
}

/// Whether a certificate expires thirty-one days after `now` or later.
pub open spec fn shown_ok(item: CacheItemView, now: int) -> bool {
    item.not_after - now >= 2678400
}

/// The counts that the dashboard shows for `items` at the instant `now`,
/// by whole days to expiry: expired below zero, expiring soon up to thirty,
/// fine beyond.
pub fn dashboard_counts(items: &Vec<CacheItem>, now: i64) -> (stats: CacheStats)
    ensures
        stats.total == items@.len(),
        stats.expired == items_view(items@).filter(|c: CacheItemView| shown_expired(c, now as int)).len(),
        stats.expiring_soon == items_view(items@).filter(
            |c: CacheItemView| shown_expiring(c, now as int),
        ).len(),
        stats.ok == items_view(items@).filter(|c: CacheItemView| shown_ok(c, now as int)).len(),
        stats.total == stats.ok + stats.expiring_soon + stats.expired,
{
    let ghost views = items_view(items@);
    let ghost gone = |c: CacheItemView| shown_expired(c, now as int);
    let ghost soon = |c: CacheItemView| shown_expiring(c, now as int);
    let ghost fine = |c: CacheItemView| shown_ok(c, now as int);
    let mut stats = CacheStats { total: 0, ok: 0, expiring_soon: 0, expired: 0 };
    let mut i: usize = 0;
    proof {
        reveal(Seq::filter);
        assert(views.take(0) =~= Seq::<CacheItemView>::empty());
    }
    while i < items.len()
        invariant
            i <= items.len(),
            views == items_view(items@),
            gone == |c: CacheItemView| shown_expired(c, now as int),
            soon == |c: CacheItemView| shown_expiring(c, now as int),
            fine == |c: CacheItemView| shown_ok(c, now as int),
            stats.total == i,
            stats.expired == views.take(i as int).filter(gone).len(),
            stats.expiring_soon == views.take(i as int).filter(soon).len(),
            stats.ok == views.take(i as int).filter(fine).len(),
            stats.total == stats.ok + stats.expiring_soon + stats.expired,
        decreases items.len() - i,
    {
        let diff: i128 = items[i].not_after as i128 - now as i128;
        proof {
            let v = views[i as int];
            assert(v.not_after == items@[i as int].not_after);
            assert(views.take(i + 1) =~= views.take(i as int).push(v));
            views.take(i as int).lemma_filter_push(v, gone);
            views.take(i as int).lemma_filter_push(v, soon);
            views.take(i as int).lemma_filter_push(v, fine);
        }
        stats.total += 1;
        if diff <= -86400 {
            stats.expired += 1;
        } else if diff < 2678400 {
            stats.expiring_soon += 1;
        } else {
            stats.ok += 1;
        }
        i += 1;
    }
    proof {
        assert(views.take(i as int) =~= views);
    }
    stats
}

/// One line of the table of targets.
#[derive(Debug)]
pub struct TargetRow {
    pub name: String,
    pub address: String,
    pub current: String,
    pub skip_verify: String,
}

/// The mark in a column of the table: a check mark for yes, nothing for no.
pub open spec fn mark(yes: bool) -> Seq<char> {
    if yes {
        "✓"@
    } else {
        ""@
    }
}

fn mark_of(yes: bool) -> (r: String)
    ensures
        r@ == mark(yes),
{
    if yes {
        String::from_str("✓")
    } else {
        String::from_str("")
    }
}

/// The table of targets: one line per target, in order, with a mark on
/// those stored under the current name and on those that skip verification.
pub fn target_rows(config: &ClientConfig) -> (rows: Vec<TargetRow>)
    ensures
        rows@.len() == config.targets@.len(),
        forall|i: int|
            0 <= i < rows@.len() ==> {
                &&& (#[trigger] rows@[i]).name@ == config.targets@[i].0@
                &&& rows@[i].address@ == config.targets@[i].1.address@
                &&& rows@[i].current@ == mark(
                    text_view(config.current_target) == Some(config.targets@[i].0@),
                )
                &&& rows@[i].skip_verify@ == mark(config.targets@[i].1.skip_verify)
            },
{
    let mut rows: Vec<TargetRow> = Vec::new();
    let mut i: usize = 0;
    while i < config.targets.len()
        invariant
            i <= config.targets.len(),
            rows@.len() == i,
            forall|j: int|
                0 <= j < i ==> {
                    &&& (#[trigger] rows@[j]).name@ == config.targets@[j].0@
                    &&& rows@[j].address@ == config.targets@[j].1.address@
                    &&& rows@[j].current@ == mark(
                        text_view(config.current_target) == Some(config.targets@[j].0@),
                    )
                    &&& rows@[j].skip_verify@ == mark(config.targets@[j].1.skip_verify)
                },
        decreases config.targets.len() - i,
    {
        let name = &config.targets[i].0;
        let target = &config.targets[i].1;
        let is_current = match &config.current_target {
            Some(current) => str_eq(current.as_str(), name.as_str()),
            None => false,
        };
        rows.push(
            TargetRow {
                name: name.clone(),
                address: target.address.clone(),
                current: mark_of(is_current),
                skip_verify: mark_of(target.skip_verify),
            },
        );
        i += 1;
    }
    rows
}

/// Stores a target under `name`, in place of the first target stored under
/// that name if there is one, and makes it the current one. The target has
/// no token yet.
pub fn set_target(config: &mut ClientConfig, name: &str, address: &str, skip_verify: bool)
    ensures
        text_view(final(config).current_target) == Some(name@),
        match target_index(old(config).targets@, name@, old(config).targets@.len() as int) {
            Some(i) => final(config).targets@.len() == old(config).targets@.len() && forall|j: int|
                0 <= j < old(config).targets@.len() && j != i
                    ==> final(config).targets@[j] == old(config).targets@[j],
            None => final(config).targets@.len() == old(config).targets@.len() + 1 && forall|j: int|
                0 <= j < old(config).targets@.len()
                    ==> final(config).targets@[j] == old(config).targets@[j],
        },
        ({
            let at = match target_index(
                old(config).targets@,
                name@,
                old(config).targets@.len() as int,
            ) {
                Some(i) => i,
                None => old(config).targets@.len() as int,
            };
            let stored = final(config).targets@[at];
            &&& stored.0@ == name@
            &&& stored.1.name@ == name@
            &&& stored.1.address@ == address@
            &&& stored.1.skip_verify == skip_verify
            &&& stored.1.token is None
            &&& stored.1.token_expires is None
        }),
{
    let target = ClientTarget {
        name: String::from_str(name),
        address: String::from_str(address),
        skip_verify,
        token: None,
        token_expires: None,
    };
    config.current_target = Some(String::from_str(name));
    let mut i: usize = 0;
    while i < config.targets.len()
        invariant
            i <= config.targets.len(),
            config.targets == old(config).targets,
            target_index(config.targets@, name@, i as int) is None,
        ensures
            i <= config.targets.len(),
            config.targets == old(config).targets,
            if i < config.targets.len() {
                target_index(config.targets@, name@, config.targets@.len() as int) == Some(i as int)
            } else {
                target_index(config.targets@, name@, config.targets@.len() as int) is None
            },
        decreases config.targets.len() - i,
    {
        if str_eq(config.targets[i].0.as_str(), name) {
            proof {
                assert(target_index(config.targets@, name@, i + 1) == Some(i as int));
                crate::config::lemma_target_index_stays(
                    config.targets@,
                    name@,
                    i + 1,
                    config.targets@.len() as int,
                );
            }
            break ;
        }
        i += 1;
    }
    if i < config.targets.len() {
        config.targets.set(i, (String::from_str(name), target));
    } else {
        config.targets.push((String::from_str(name), target));
    }
}

/// Keeps the token that the server granted for the first target stored
/// under `name`. Nothing changes where there is no such target.
pub fn store_token(config: &mut ClientConfig, name: &str, token: String, expires: i64)
    ensures
        final(config).current_target == old(config).current_target,
        final(config).targets@.len() == old(config).targets@.len(),
        match target_index(old(config).targets@, name@, old(config).targets@.len() as int) {
            Some(i) => {
                &&& forall|j: int|
                    0 <= j < old(config).targets@.len() && j != i ==> final(config).targets@[j]
                        == old(config).targets@[j]
                &&& final(config).targets@[i].0 == old(config).targets@[i].0
                &&& final(config).targets@[i].1.token == Some(token)
                &&& final(config).targets@[i].1.token_expires == Some(expires)
                &&& final(config).targets@[i].1.name == old(config).targets@[i].1.name
                &&& final(config).targets@[i].1.address == old(config).targets@[i].1.address
                &&& final(config).targets@[i].1.skip_verify == old(config).targets@[i].1.skip_verify
            },
            None => final(config).targets == old(config).targets,
        },
{
    let mut i: usize = 0;
    while i < config.targets.len()
        invariant
            i <= config.targets.len(),
            *config == *old(config),
            target_index(config.targets@, name@, i as int) is None,
        ensures
            i <= config.targets.len(),
            *config == *old(config),
            if i < config.targets.len() {
                target_index(config.targets@, name@, config.targets@.len() as int) == Some(i as int)
            } else {
                target_index(config.targets@, name@, config.targets@.len() as int) is None
            },
        decreases config.targets.len() - i,
    {
        if str_eq(config.targets[i].0.as_str(), name) {
            proof {
                assert(target_index(config.targets@, name@, i + 1) == Some(i as int));
                crate::config::lemma_target_index_stays(
                    config.targets@,
                    name@,
                    i + 1,
                    config.targets@.len() as int,
                );
            }
            break ;
        }
        i += 1;
    }
    if i < config.targets.len() {
        config.targets[i].1.token = Some(token);
        config.targets[i].1.token_expires = Some(expires);
    }
}

} // verus!
