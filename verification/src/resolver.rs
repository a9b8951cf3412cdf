//! Target resolution: given a requested title and the current enumeration of
//! capturable sources, find the source to capture. Three tiers are tried in
//! order, first success wins: an exact, case-sensitive title match; a
//! case-insensitive match where the candidate's title contains the requested
//! title; and a case-insensitive match in either direction. Within a tier the
//! first candidate in enumeration order wins.

use vstd::prelude::*;
use crate::enumerator::WindowInfo;
use crate::text::{contains_substring, has_substring, lower_of, lowercase};

verus! {

/// First index in `titles` whose entry satisfies `pred`.
pub open spec fn first_match(titles: Seq<Seq<char>>, pred: spec_fn(Seq<char>) -> bool) -> Option<
    int,
>
    decreases titles.len(),
{
    if titles.len() == 0 {
        None
    } else if pred(titles[0]) {
        Some(0int)
    } else {
        match first_match(titles.drop_first(), pred) {
            Some(i) => Some(i + 1),
            None => None,
        }
    }
}

/// When nothing satisfies the predicate, `first_match` finds nothing.
pub proof fn lemma_first_match_none_of(titles: Seq<Seq<char>>, pred: spec_fn(Seq<char>) -> bool)
    requires
        forall|j: int| 0 <= j < titles.len() ==> !pred(titles[j]),
    ensures
        first_match(titles, pred) is None,
    decreases titles.len(),
{
    if titles.len() > 0 {
        let rest = titles.drop_first();
        assert forall|j: int| 0 <= j < rest.len() implies !pred(rest[j]) by {
            assert(rest[j] == titles[j + 1]);
        }
        lemma_first_match_none_of(rest, pred);
    }
}

/// When `first_match` finds nothing, nothing satisfies the predicate.
pub proof fn lemma_first_match_covers(titles: Seq<Seq<char>>, pred: spec_fn(Seq<char>) -> bool)
    requires
        first_match(titles, pred) is None,
    ensures
        forall|j: int| 0 <= j < titles.len() ==> !pred(titles[j]),
    decreases titles.len(),
{
    if titles.len() > 0 {
        let rest = titles.drop_first();
        lemma_first_match_covers(rest, pred);
        assert forall|j: int| 0 <= j < titles.len() implies !pred(titles[j]) by {
            if j > 0 {
                assert(titles[j] == rest[j - 1]);
            }
        }
    }
}

/// `first_match` returns the least index that satisfies the predicate.
pub proof fn lemma_first_match_found(
    titles: Seq<Seq<char>>,
    pred: spec_fn(Seq<char>) -> bool,
    i: int,
)
    requires
        0 <= i < titles.len(),
        pred(titles[i]),
        forall|j: int| 0 <= j < i ==> !pred(titles[j]),
    ensures
        first_match(titles, pred) == Some(i),
    decreases titles.len(),
{
    if i > 0 {
        lemma_first_match_found(titles.drop_first(), pred, i - 1);
    }
}

/// An exact, case-sensitive title match.
pub open spec fn tier_exact(req: Seq<char>) -> spec_fn(Seq<char>) -> bool {
    |t: Seq<char>| t == req
}

/// The candidate's folded title contains the folded requested title.
pub open spec fn tier_partial(req: Seq<char>) -> spec_fn(Seq<char>) -> bool {
    |t: Seq<char>| has_substring(lower_of(t), lower_of(req))
}

/// Case-insensitive containment in either direction.
pub open spec fn tier_either(req: Seq<char>) -> spec_fn(Seq<char>) -> bool {
    |t: Seq<char>|
        has_substring(lower_of(t), lower_of(req)) || has_substring(lower_of(req), lower_of(t))
}

/// The index the resolver picks for a requested title, over the titles of
/// the enumerated sources: the first exact match if one exists, else the
/// first one-way case-insensitive match, else the first case-insensitive
/// match in either direction.
pub open spec fn resolve_spec(req: Seq<char>, titles: Seq<Seq<char>>) -> Option<int> {
    match first_match(titles, tier_exact(req)) {
        Some(i) => Some(i),
        None => match first_match(titles, tier_partial(req)) {
            Some(i) => Some(i),
            None => first_match(titles, tier_either(req)),
        },
    }
}

/// The titles of an enumeration, in enumeration order.
pub open spec fn titles_of(ws: Seq<WindowInfo>) -> Seq<Seq<char>> {
    ws.map_values(|w: WindowInfo| w.title@)
}

/// Find the enumerated source to capture for a requested title; `None` means
/// resolution failed and no session may be created.
pub fn resolve_target(requested: &str, windows: &Vec<WindowInfo>) -> (found: Option<usize>)
    ensures
        match found {
            Some(ix) => ix < windows@.len() && resolve_spec(requested@, titles_of(windows@))
                == Some(ix as int),
            None => resolve_spec(requested@, titles_of(windows@)) is None,
        },
{
    let ghost titles = titles_of(windows@);
    let n = windows.len();

    let req_owned = requested.to_owned();
    let mut i: usize = 0;
    while i < n
        invariant
            i <= n,
            n == windows@.len(),
            titles == titles_of(windows@),
            req_owned@ == requested@,
            forall|j: int| 0 <= j < i ==> !tier_exact(requested@)(titles[j]),
        decreases n - i,
    {
        if windows[i].title == req_owned {
            proof {
                lemma_first_match_found(titles, tier_exact(requested@), i as int);
            }
            return Some(i);
        }
        i = i + 1;
    }
    proof {
        lemma_first_match_none_of(titles, tier_exact(requested@));
    }

    let req_low = lowercase(requested);
    let mut i: usize = 0;
    while i < n
        invariant
            i <= n,
            n == windows@.len(),
            titles == titles_of(windows@),
            req_low@ == lower_of(requested@),
            first_match(titles, tier_exact(requested@)) is None,
            forall|j: int| 0 <= j < i ==> !tier_partial(requested@)(titles[j]),
        decreases n - i,
    {
        let t_low = lowercase(windows[i].title.as_str());
        if contains_substring(t_low.as_str(), req_low.as_str()) {
            proof {
                lemma_first_match_found(titles, tier_partial(requested@), i as int);
            }
            return Some(i);
        }
        i = i + 1;
    }
    proof {
        lemma_first_match_none_of(titles, tier_partial(requested@));
    }

    let mut i: usize = 0;
    while i < n
        invariant
            i <= n,
            n == windows@.len(),
            titles == titles_of(windows@),
            req_low@ == lower_of(requested@),
            first_match(titles, tier_exact(requested@)) is None,
            first_match(titles, tier_partial(requested@)) is None,
            forall|j: int| 0 <= j < i ==> !tier_either(requested@)(titles[j]),
        decreases n - i,
    {
        let t_low = lowercase(windows[i].title.as_str());
        if contains_substring(t_low.as_str(), req_low.as_str()) || contains_substring(
            req_low.as_str(),
            t_low.as_str(),
        ) {
            proof {
                lemma_first_match_found(titles, tier_either(requested@), i as int);
            }
            return Some(i);
        }
        i = i + 1;
    }
    proof {
        lemma_first_match_none_of(titles, tier_either(requested@));
    }
    None
}

/// The resolver prefers an exact match: whenever some candidate's title
/// equals the requested title, the first such candidate is chosen, whatever
/// the looser tiers would also accept.
pub proof fn lemma_resolve_prefers_exact(req: Seq<char>, titles: Seq<Seq<char>>)
    requires
        exists|i: int| 0 <= i < titles.len() && titles[i] == req,
    ensures
        ({
            let found = resolve_spec(req, titles);
            &&& found is Some
            &&& 0 <= found.unwrap() < titles.len()
            &&& titles[found.unwrap()] == req
            &&& forall|j: int| 0 <= j < found.unwrap() ==> titles[j] != req
        }),
{
    let i0 = choose|i: int| 0 <= i < titles.len() && titles[i] == req;
    assert(tier_exact(req)(titles[i0]));
    if first_match(titles, tier_exact(req)) is None {
        lemma_first_match_covers(titles, tier_exact(req));
    }
    lemma_first_match_properties(titles, tier_exact(req));
}

/// The resolver prefers a one-way partial match over a match found only by
/// the widest tier: when no exact match exists but some candidate's folded
/// title contains the folded request, the first such candidate is chosen.
pub proof fn lemma_resolve_prefers_partial(req: Seq<char>, titles: Seq<Seq<char>>)
    requires
        forall|i: int| 0 <= i < titles.len() ==> titles[i] != req,
        exists|i: int|
            0 <= i < titles.len() && has_substring(lower_of(titles[i]), lower_of(req)),
    ensures
        ({
            let found = resolve_spec(req, titles);
            &&& found is Some
            &&& 0 <= found.unwrap() < titles.len()
            &&& has_substring(lower_of(titles[found.unwrap()]), lower_of(req))
            &&& forall|j: int|
                0 <= j < found.unwrap() ==> !has_substring(lower_of(titles[j]), lower_of(req))
        }),
{
    assert forall|j: int| 0 <= j < titles.len() implies !tier_exact(req)(titles[j]) by {}
    lemma_first_match_none_of(titles, tier_exact(req));
    let i0 = choose|i: int|
        0 <= i < titles.len() && has_substring(lower_of(titles[i]), lower_of(req));
    assert(tier_partial(req)(titles[i0]));
    if first_match(titles, tier_partial(req)) is None {
        lemma_first_match_covers(titles, tier_partial(req));
    }
    lemma_first_match_properties(titles, tier_partial(req));
}

/// When `first_match` finds an index, that index is in range, satisfies the
/// predicate, and no earlier index does.
pub proof fn lemma_first_match_properties(
    titles: Seq<Seq<char>>,
    pred: spec_fn(Seq<char>) -> bool,
)
    ensures
        match first_match(titles, pred) {
            Some(i) => 0 <= i < titles.len() && pred(titles[i]) && forall|j: int|
                0 <= j < i ==> !pred(titles[j]),
            None => true,
        },
    decreases titles.len(),
{
    if titles.len() > 0 && !pred(titles[0]) {
        let rest = titles.drop_first();
        lemma_first_match_properties(rest, pred);
        if first_match(rest, pred) is Some {
            let i = first_match(rest, pred).unwrap();
            assert(titles[i + 1] == rest[i]);
            assert forall|j: int| 0 <= j < i + 1 implies !pred(titles[j]) by {
                if j > 0 {
                    assert(titles[j] == rest[j - 1]);
                }
            }
        }
    }
}

} // verus!
