//! Context assembly: expanding nearest-neighbor matches into passage
//! windows, normalizing each window, and joining them into the context
//! string handed to the completion prompt.

use vstd::prelude::*;
use crate::corpus::SentenceStore;
use crate::corpus::Sentence;
use crate::corpus::location_at;
use crate::corpus::texts_in_range;
use crate::corpus::window_bounds;
use crate::corpus::window_lo;
use crate::corpus::window_hi;
use crate::error::ChatError;
use crate::text::join_with;
use crate::text::join_parts;
use crate::text::normalize;
use crate::text::normalize_spec;

verus! {

/// One nearest-neighbor hit: the row id of the matched sentence and its
/// search distance, as a monotone integer encoding (a smaller value means a
/// nearer match).  Callers that obtain fractional distances map them through
/// any order-preserving encoding before handing matches to the library.
#[derive(Debug, Clone, Copy, PartialEq, Eq, Structural)]
pub struct NeighborMatch {
    pub row_id: u32,
    pub distance: u64,
}

/// The window text for `row_id`: the texts of the surrounding sentences,
/// three back through five forward on the same page, joined with newlines.
/// Empty when the row id has no location record.
pub open spec fn window_spec(v: Seq<Sentence>, row_id: u32) -> Seq<char> {
    match location_at(v, row_id) {
        Some(loc) => join_with(
            "\n"@,
            texts_in_range(v, loc.0, window_lo(loc.1), window_hi(loc.1)),
        ),
        None => Seq::empty(),
    }
}

/// The context assembled for `matches` against corpus `v`: each match's
/// window, normalized, joined with blank lines in match order.
pub open spec fn context_spec(v: Seq<Sentence>, matches: Seq<NeighborMatch>) -> Seq<char> {
    join_with(
        "\n\n"@,
        matches.map_values(|m: NeighborMatch| normalize_spec(window_spec(v, m.row_id))),
    )
}

/// The row id of the first match in `matches` that has no location record in
/// `v`, if any.
pub open spec fn first_absent(v: Seq<Sentence>, matches: Seq<NeighborMatch>) -> Option<u32>
    decreases matches.len(),
{
    if matches.len() == 0 {
        None
    } else if location_at(v, matches[0].row_id) is None {
        Some(matches[0].row_id)
    } else {
        first_absent(v, matches.drop_first())
    }
}

proof fn lemma_first_absent_skip(v: Seq<Sentence>, matches: Seq<NeighborMatch>, i: int)
    requires
        0 <= i <= matches.len(),
        forall|k: int|
            0 <= k < i ==> location_at(v, (#[trigger] matches[k]).row_id) is Some,
    ensures
        first_absent(v, matches) == first_absent(v, matches.skip(i)),
    decreases i,
{
    if i > 0 {
        let t = matches.drop_first();
        assert(t =~= matches.skip(1));
        assert(forall|k: int| 0 <= k < t.len() ==> #[trigger] t[k] == matches[k + 1]);
        lemma_first_absent_skip(v, t, i - 1);
        assert(t.skip(i - 1) =~= matches.skip(i));
    } else {
        assert(matches.skip(0) =~= matches);
    }
}

/// Expands one match into its passage window: resolves the row id to a page
/// location and joins the texts of the surrounding sentences with newlines.
/// Fails with `NotFound` exactly when the row id has no location record.
pub fn expand_window(store: &SentenceStore, row_id: u32) -> (r: Result<String, ChatError>)
    ensures
        location_at(store@, row_id) is Some ==> (r matches Ok(w) && w@ == window_spec(
            store@,
            row_id,
        )),
        location_at(store@, row_id) is None ==> r == Err::<String, ChatError>(
            ChatError::NotFound(row_id),
        ),
{
    match store.lookup_location(row_id) {
        None => Err(ChatError::NotFound(row_id)),
        Some((page_id, page_index)) => {
            let (lo, hi) = window_bounds(page_index);
            let texts = store.sentences_in_range(page_id, lo, hi);
            Ok(join_parts(&texts, "\n"))
        },
    }
}

/// Normalizes each window and joins them with blank lines, preserving the
/// given order.
pub fn assemble_context(windows: &Vec<String>) -> (r: String)
    ensures
        r@ == join_with(
            "\n\n"@,
            windows@.map_values(|w: String| normalize_spec(w@)),
        ),
{
    let mut normalized: Vec<String> = Vec::new();
    let mut i: usize = 0;
    while i < windows.len()
        invariant
            0 <= i <= windows@.len(),
            normalized@.map_values(|p: String| p@) =~= windows@.take(i as int).map_values(
                |w: String| normalize_spec(w@),
            ),
        decreases windows@.len() - i,
    {
        let ghost n0 = normalized@;
        let piece = normalize(windows[i].as_str());
        let ghost pv = piece@;
        normalized.push(piece);
        proof {
            assert(normalized@.map_values(|p: String| p@) =~= n0.map_values(
                |p: String| p@,
            ).push(pv));
            assert(windows@.take(i as int + 1).map_values(|w: String| normalize_spec(w@))
                =~= windows@.take(i as int).map_values(|w: String| normalize_spec(w@)).push(
                normalize_spec(windows@[i as int]@),
            ));
        }
        i = i + 1;
    }
    proof {
        assert(windows@.take(windows@.len() as int) =~= windows@);
    }
    let r = join_parts(&normalized, "\n\n");
    proof {
        assert(normalized@.map_values(|p: String| p@) =~= windows@.map_values(
            |w: String| normalize_spec(w@),
        ));
    }
    r
}

/// Assembles the retrieval context for a query: expands each match into its
/// window, in the given (ascending-distance) order, normalizes each window,
/// joins them with blank lines, and echoes the query unchanged.  Zero
/// matches give an empty context, not an error; a match whose row id has no
/// location record fails the whole request with `NotFound`.
pub fn get_context(store: &SentenceStore, matches: &Vec<NeighborMatch>, query: String) -> (r:
    Result<(String, String), ChatError>)
    ensures
        first_absent(store@, matches@) is None ==> (r matches Ok(p) && p.0@ == context_spec(
            store@,
            matches@,
        ) && p.1@ == query@),
        (match first_absent(store@, matches@) {
            Some(rid) => r == Err::<(String, String), ChatError>(ChatError::NotFound(rid)),
            None => true,
        }),
        matches@.len() == 0 ==> (r matches Ok(p) && p.0@ == Seq::<char>::empty() && p.1@
            == query@),
{
    let mut windows: Vec<String> = Vec::new();
    let mut i: usize = 0;
    while i < matches.len()
        invariant
            0 <= i <= matches@.len(),
            forall|k: int|
                0 <= k < i ==> location_at(store@, (#[trigger] matches@[k]).row_id) is Some,
            windows@.map_values(|w: String| w@) =~= matches@.take(i as int).map_values(
                |m: NeighborMatch| window_spec(store@, m.row_id),
            ),
        decreases matches@.len() - i,
    {
        let ghost w0 = windows@;
        match expand_window(store, matches[i].row_id) {
            Ok(w) => {
                let ghost wv = w@;
                windows.push(w);
                proof {
                    assert(windows@.map_values(|w: String| w@) =~= w0.map_values(
                        |w: String| w@,
                    ).push(wv));
                    assert(matches@.take(i as int + 1).map_values(
                        |m: NeighborMatch| window_spec(store@, m.row_id),
                    ) =~= matches@.take(i as int).map_values(
                        |m: NeighborMatch| window_spec(store@, m.row_id),
                    ).push(window_spec(store@, matches@[i as int].row_id)));
                }
            },
            Err(e) => {
                proof {
                    lemma_first_absent_skip(store@, matches@, i as int);
                    assert(matches@.skip(i as int)[0] == matches@[i as int]);
                }
                return Err(e);
            },
        }
        i = i + 1;
    }
    proof {
        lemma_first_absent_skip(store@, matches@, matches@.len() as int);
        assert(matches@.skip(matches@.len() as int) =~= Seq::<NeighborMatch>::empty());
        assert(matches@.take(matches@.len() as int) =~= matches@);
    }
    let context = assemble_context(&windows);
    proof {
        assert(windows@.len() == matches@.len());
        let ghost a = windows@.map_values(|w: String| normalize_spec(w@));
        let ghost b = matches@.map_values(
            |m: NeighborMatch| normalize_spec(window_spec(store@, m.row_id)),
        );
        assert forall|k: int| 0 <= k < a.len() implies #[trigger] a[k] == b[k] by {
            assert(windows@.map_values(|w: String| w@)[k] == matches@.map_values(
                |m: NeighborMatch| window_spec(store@, m.row_id),
            )[k]);
        }
        assert(a =~= b);
        if matches@.len() == 0 {
            assert(matches@.map_values(
                |m: NeighborMatch| normalize_spec(window_spec(store@, m.row_id)),
            ) =~= Seq::<Seq<char>>::empty());
        }
    }
    Ok((context, query))
}

/// Whether the matches are sorted by ascending distance.
pub open spec fn sorted_by_distance(matches: Seq<NeighborMatch>) -> bool {
    forall|i: int|
        0 <= i && i + 1 < matches.len() ==> (#[trigger] matches[i]).distance <= matches[i
            + 1].distance
}

/// Law: the assembled context presents exactly one normalized window segment
/// per match, at the match's own position, so when the matches are sorted by
/// ascending distance the segments appear in ascending-distance order: for
/// any two positions `i <= j`, the segment at `i` belongs to a match at
/// least as near as the one at `j`.
pub proof fn lemma_context_in_distance_order(
    v: Seq<Sentence>,
    matches: Seq<NeighborMatch>,
    i: int,
    j: int,
)
    requires
        sorted_by_distance(matches),
        0 <= i <= j < matches.len(),
    ensures
        matches[i].distance <= matches[j].distance,
        context_spec(v, matches) == join_with(
            "\n\n"@,
            matches.map_values(|m: NeighborMatch| normalize_spec(window_spec(v, m.row_id))),
        ),
        matches.map_values(|m: NeighborMatch| normalize_spec(window_spec(v, m.row_id)))[i]
            == normalize_spec(window_spec(v, matches[i].row_id)),
    decreases j - i,
{
    if i < j {
        lemma_context_in_distance_order(v, matches, i + 1, j);
    }
}

} // verus!
