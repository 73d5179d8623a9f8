use vstd::prelude::*;

verus! {

/// A directory entry as the expiry sweep sees it: its path and its age in
/// seconds, rounded up to a whole second, or `None` when its creation time
/// lies in the future. Rounding up keeps "older than the time-to-live" exact
/// for a whole-second time-to-live.
pub struct FileAge {
    pub path: String,
    pub age: Option<u64>,
}

/// An entry is expired when it is strictly older than the time-to-live.
pub open spec fn is_expired(age: Option<u64>, ttl: u64) -> bool {
    match age {
        Some(a) => a > ttl,
        None => false,
    }
}

pub open spec fn entries_view(entries: Seq<FileAge>) -> Seq<(Seq<char>, Option<u64>)> {
    entries.map_values(|e: FileAge| (e.path@, e.age))
}

/// The paths of the expired entries, in the order of the listing.
pub open spec fn expired_of(entries: Seq<(Seq<char>, Option<u64>)>, ttl: u64) -> Seq<Seq<char>>
    decreases entries.len(),
{
    if entries.len() == 0 {
        Seq::empty()
    } else {
        let rest = expired_of(entries.drop_last(), ttl);
        if is_expired(entries.last().1, ttl) {
            rest.push(entries.last().0)
        } else {
            rest
        }
    }
}

/// An age of `secs` seconds and `nanos` nanoseconds in whole seconds,
/// rounded up, so that it is over a whole-second time-to-live exactly when
/// the true age is.
pub fn age_secs(secs: u64, nanos: u32) -> (r: u64)
    requires
        nanos < 1_000_000_000,
    ensures
        secs < u64::MAX ==> forall|ttl: u64|
            #![trigger is_expired(Some(r), ttl)]
            is_expired(Some(r), ttl) <==> secs as int * 1_000_000_000 + nanos as int > ttl as int
                * 1_000_000_000,
{
    let r = if nanos > 0 && secs < u64::MAX {
        secs + 1
    } else {
        secs
    };
    proof {
        assert forall|ttl: u64| #![trigger is_expired(Some(r), ttl)]
            secs < u64::MAX ==> (is_expired(Some(r), ttl) <==> secs as int * 1_000_000_000
                + nanos as int > ttl as int * 1_000_000_000) by {
            if secs < u64::MAX {
                assert((r > ttl) <==> (secs as int * 1_000_000_000 + nanos as int > ttl as int
                    * 1_000_000_000)) by (nonlinear_arith)
                    requires
                        nanos < 1_000_000_000,
                        r == (if nanos > 0 { secs + 1 } else { secs as int }),
                ;
            }
        }
    }
    r
}

/// Whether one entry is expired.
pub fn expired(age: Option<u64>, ttl: u64) -> (r: bool)
    ensures
        r == is_expired(age, ttl),
{
    match age {
        Some(a) => a > ttl,
        None => false,
    }
}

/// The paths of the entries in a directory listing that are older than
/// `ttl` seconds and so due for removal.
pub fn expired_files(entries: &Vec<FileAge>, ttl: u64) -> (r: Vec<String>)
    ensures
        names_of(r@) == expired_of(entries_view(entries@), ttl),
{
    let mut out: Vec<String> = Vec::new();
    let mut i: usize = 0;
    while i < entries.len()
        invariant
            0 <= i <= entries@.len(),
            names_of(out@) == expired_of(entries_view(entries@.take(i as int)), ttl),
        decreases entries@.len() - i,
    {
        proof {
            assert(entries@.take(i + 1).drop_last() =~= entries@.take(i as int));
            assert(entries_view(entries@.take(i + 1)).drop_last() =~= entries_view(
                entries@.take(i as int),
            ));
        }
        if expired(entries[i].age, ttl) {
            out.push(entries[i].path.clone());
        }
        i = i + 1;
    }
    assert(entries@.take(entries@.len() as int) =~= entries@);
    out
}

pub open spec fn names_of(v: Seq<String>) -> Seq<Seq<char>> {
    v.map_values(|s: String| s@)
}

/// An entry of a listing is selected by the sweep if and only if it is
/// older than the time-to-live; so an entry within it survives every sweep
/// that sees it so.
pub proof fn lemma_expired_iff(entries: Seq<(Seq<char>, Option<u64>)>, ttl: u64, path: Seq<char>)
    ensures
        expired_of(entries, ttl).contains(path) <==> exists|i: int|
            0 <= i < entries.len() && (#[trigger] entries[i]).0 == path && is_expired(
                entries[i].1,
                ttl,
            ),
    decreases entries.len(),
{
    if entries.len() > 0 {
        let init = entries.drop_last();
        lemma_expired_iff(init, ttl, path);
        let rest = expired_of(init, ttl);
        if expired_of(entries, ttl).contains(path) {
            if !rest.contains(path) {
                assert(is_expired(entries.last().1, ttl));
                let k = choose|k: int|
                    0 <= k < expired_of(entries, ttl).len() && expired_of(entries, ttl)[k] == path;
                assert(k == rest.len());
                assert(entries[entries.len() - 1].0 == path);
            } else {
                let i = choose|i: int|
                    0 <= i < init.len() && (#[trigger] init[i]).0 == path && is_expired(
                        init[i].1,
                        ttl,
                    );
                assert(entries[i] == init[i]);
            }
        }
        if exists|i: int|
            0 <= i < entries.len() && (#[trigger] entries[i]).0 == path && is_expired(
                entries[i].1,
                ttl,
            ) {
            let i = choose|i: int|
                0 <= i < entries.len() && (#[trigger] entries[i]).0 == path && is_expired(
                    entries[i].1,
                    ttl,
                );
            if i == entries.len() - 1 {
                assert(expired_of(entries, ttl) == rest.push(path));
                assert(expired_of(entries, ttl)[rest.len() as int] == path);
            } else {
                assert(init[i] == entries[i]);
                assert(rest.contains(path));
                let k = choose|k: int| 0 <= k < rest.len() && rest[k] == path;
                if is_expired(entries.last().1, ttl) {
                    assert(expired_of(entries, ttl)[k] == path);
                }
            }
        }
    }
}

/// A file survives every sweep in which it is within the time-to-live: over
/// any run of sweeps, each on its own listing, a path whose every entry is no
/// older than `ttl` is selected by none of them. Paths need not be unique.
pub proof fn lemma_fresh_file_survives_sweeps(
    listings: Seq<Seq<(Seq<char>, Option<u64>)>>,
    ttl: u64,
    path: Seq<char>,
)
    requires
        forall|j: int, i: int|
            0 <= j < listings.len() && 0 <= i < listings[j].len() && (#[trigger] listings[j][i]).0
                == path ==> !is_expired(listings[j][i].1, ttl),
    ensures
        forall|j: int| 0 <= j < listings.len() ==> !(#[trigger] expired_of(listings[j], ttl)).contains(path),
{
    assert forall|j: int| 0 <= j < listings.len() implies !(#[trigger] expired_of(
        listings[j],
        ttl,
    )).contains(path) by {
        lemma_expired_iff(listings[j], ttl, path);
        if expired_of(listings[j], ttl).contains(path) {
            let i = choose|i: int|
                0 <= i < listings[j].len() && (#[trigger] listings[j][i]).0 == path && is_expired(
                    listings[j][i].1,
                    ttl,
                );
        }
    }
}

} // verus!
