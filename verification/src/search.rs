//! Text search over the shown records.
use crate::text::{has_run, text_contains};
use vstd::prelude::*;

verus! {

/// A text in lower case, by the Unicode rules.
pub uninterp spec fn lowercase(s: Seq<char>) -> Seq<char>;

/// `str::to_lowercase` gives the text in lower case: its characters alone decide.
pub assume_specification[ str::to_lowercase ](s: &str) -> (r: String)
    ensures
        r@ == lowercase(s@),
;

/// The positions of the texts that hold `needle`, in order.
pub open spec fn hits(texts: Seq<Seq<char>>, needle: Seq<char>) -> Seq<usize>
    decreases texts.len(),
{
    if texts.len() == 0 {
        seq![]
    } else {
        let before = hits(texts.drop_last(), needle);
        if has_run(texts.last(), needle) {
            before.push((texts.len() - 1) as usize)
        } else {
            before
        }
    }
}

/// Adds a position to the hits where the text there holds the needle.
pub fn note_hit(found: &mut Vec<usize>, position: usize, text: &str, needle: &str)
    ensures
        final(found)@ == if has_run(text@, needle@) {
            old(found)@.push(position)
        } else {
            old(found)@
        },
{
    if text_contains(text, needle) {
        found.push(position);
    }
}

/// The first of some positions that is not before `bound`.
pub open spec fn first_from(positions: Seq<usize>, bound: int) -> Option<usize>
    decreases positions.len(),
{
    if positions.len() == 0 {
        None
    } else if positions[0] >= bound {
        Some(positions[0])
    } else {
        first_from(positions.skip(1), bound)
    }
}

/// The last of some positions that is before `bound`.
pub open spec fn last_before(positions: Seq<usize>, bound: int) -> Option<usize>
    decreases positions.len(),
{
    if positions.len() == 0 {
        None
    } else if positions.last() < bound {
        Some(positions.last())
    } else {
        last_before(positions.drop_last(), bound)
    }
}

/// Where a jump from `anchor` lands: on the next or the previous hit, round the end
/// where there is none that way. With `include_current` a hit at the anchor counts as
/// the next one.
pub open spec fn jump_target(
    positions: Seq<usize>,
    anchor: usize,
    forward: bool,
    include_current: bool,
) -> Option<usize> {
    if positions.len() == 0 {
        None
    } else if forward {
        let bound = if include_current {
            anchor as int
        } else {
            anchor + 1
        };
        match first_from(positions, bound) {
            Some(p) => Some(p),
            None => Some(positions[0]),
        }
    } else {
        match last_before(positions, anchor as int) {
            Some(p) => Some(p),
            None => Some(positions.last()),
        }
    }
}

pub fn find_target(
    positions: &Vec<usize>,
    anchor: usize,
    forward: bool,
    include_current: bool,
) -> (r: Option<usize>)
    ensures
        r == jump_target(positions@, anchor, forward, include_current),
{
    let n: usize = positions.len();
    if n == 0 {
        return None;
    }
    if forward {
        let ghost bound = if include_current {
            anchor as int
        } else {
            anchor + 1
        };
        let mut i: usize = 0;
        assert(positions@.skip(0) =~= positions@);
        while i < n
            invariant
                i <= n == positions@.len(),
                n > 0,
                forward,
                bound == if include_current {
                    anchor as int
                } else {
                    anchor + 1
                },
                first_from(positions@.skip(i as int), bound) == first_from(positions@, bound),
            decreases n - i,
        {
            let p: usize = positions[i];
            assert(positions@.skip(i as int)[0] == p);
            if p > anchor || (include_current && p == anchor) {
                return Some(p);
            }
            assert(positions@.skip(i as int).skip(1) =~= positions@.skip(i + 1));
            i = i + 1;
        }
        Some(positions[0])
    } else {
        let mut i: usize = n;
        assert(positions@.take(n as int) =~= positions@);
        while i > 0
            invariant
                i <= n == positions@.len(),
                n > 0,
                !forward,
                last_before(positions@.take(i as int), anchor as int) == last_before(
                    positions@,
                    anchor as int,
                ),
            decreases i,
        {
            let p: usize = positions[i - 1];
            assert(positions@.take(i as int).last() == p);
            if p < anchor {
                return Some(p);
            }
            assert(positions@.take(i as int).drop_last() =~= positions@.take(i - 1));
            i = i - 1;
        }
        Some(positions[n - 1])
    }
}

/// Whether positions ascend.
pub open spec fn ascending(positions: Seq<usize>) -> bool {
    forall|i: int, j: int| 0 <= i < j < positions.len() ==> positions[i] < positions[j]
}

/// The hits ascend, each is the position of a text that holds the needle, and no such
/// text is missing.
pub proof fn hits_are_the_matches(texts: Seq<Seq<char>>, needle: Seq<char>)
    requires
        texts.len() <= usize::MAX,
    ensures
        ascending(hits(texts, needle)),
        forall|i: int|
            0 <= i < hits(texts, needle).len() ==> (#[trigger] hits(texts, needle)[i])
                < texts.len() && has_run(texts[hits(texts, needle)[i] as int], needle),
        forall|p: int|
            0 <= p < texts.len() && has_run(#[trigger] texts[p], needle) ==> hits(
                texts,
                needle,
            ).contains(p as usize),
    decreases texts.len(),
{
    if texts.len() > 0 {
        let rest = texts.drop_last();
        hits_are_the_matches(rest, needle);
        let before = hits(rest, needle);
        let all = hits(texts, needle);
        assert forall|i: int| 0 <= i < all.len() implies (#[trigger] all[i]) < texts.len()
            && has_run(texts[all[i] as int], needle) by {
            if i < before.len() {
                assert(before[i] == all[i]);
                assert(rest[all[i] as int] == texts[all[i] as int]);
            }
        }
        assert forall|p: int| 0 <= p < texts.len() && has_run(
            #[trigger] texts[p],
            needle,
        ) implies all.contains(p as usize) by {
            if p < rest.len() {
                assert(rest[p] == texts[p]);
                let k = choose|k: int| 0 <= k < before.len() && before[k] == p as usize;
                assert(all[k] == p as usize);
            } else {
                assert(all.last() == p as usize);
            }
        }
    }
}

proof fn first_from_ascending(positions: Seq<usize>, i: int)
    requires
        ascending(positions),
        0 <= i <= positions.len(),
    ensures
        i < positions.len() ==> first_from(positions, positions[i] as int) == Some(positions[i]),
        i < positions.len() ==> first_from(positions, positions[i] + 1) == (if i + 1
            < positions.len() {
            Some(positions[i + 1])
        } else {
            None
        }),
    decreases positions.len(),
{
    if i < positions.len() {
        let rest = positions.skip(1);
        assert forall|a: int, b: int| 0 <= a < b < rest.len() implies rest[a] < rest[b] by {
            assert(rest[a] == positions[a + 1] && rest[b] == positions[b + 1]);
        }
        if i > 0 {
            assert(positions[0] < positions[i]);
            assert(rest[i - 1] == positions[i]);
            first_from_ascending(rest, i - 1);
        } else {
            if positions.len() > 1 {
                assert(rest[0] == positions[1]);
                assert(positions[0] < positions[1]);
            }
            assert(first_from(rest, positions[0] + 1) == (if rest.len() > 0 {
                Some(rest[0])
            } else {
                None
            }));
        }
    }
}

proof fn last_before_ascending(positions: Seq<usize>, i: int)
    requires
        ascending(positions),
        0 <= i < positions.len(),
    ensures
        last_before(positions, positions[i] as int) == (if i > 0 {
            Some(positions[i - 1])
        } else {
            None
        }),
    decreases positions.len(),
{
    let rest = positions.drop_last();
    assert(ascending(rest));
    if i + 1 < positions.len() {
        assert(positions[i] < positions.last());
        last_before_ascending(rest, i);
    } else {
        if i > 0 {
            assert(rest.last() == positions[i - 1]);
            assert(positions[i - 1] < positions[i]);
        }
        assert(last_before(rest, positions[i] as int) == (if i > 0 {
            Some(positions[i - 1])
        } else {
            None
        }));
    }
}

/// From a hit, the next jump lands on the hit after it, round the end; jumping back
/// from there lands where the jump began.
pub proof fn jumps_go_round(positions: Seq<usize>, i: int)
    requires
        ascending(positions),
        0 <= i < positions.len(),
    ensures
        ({
            let next = if i + 1 < positions.len() {
                positions[i + 1]
            } else {
                positions[0]
            };
            &&& jump_target(positions, positions[i], true, false) == Some(next)
            &&& jump_target(positions, next, false, false) == Some(positions[i])
            &&& jump_target(positions, positions[i], true, true) == Some(positions[i])
        }),
{
    first_from_ascending(positions, i);
    if i + 1 < positions.len() {
        last_before_ascending(positions, i + 1);
    } else {
        last_before_ascending(positions, 0);
    }
}

} // verus!
