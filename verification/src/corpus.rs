//! The corpus model: stored sentences addressed by row id and by page
//! position, with range queries that back passage-window expansion.

use vstd::prelude::*;

verus! {

/// One stored corpus sentence.  `row_id` identifies it uniquely across the
/// corpus; `(page_id, page_index)` gives its position within its source
/// page.  Both are assigned at ingestion and immutable afterwards.
#[derive(Debug, Clone)]
pub struct Sentence {
    pub row_id: u32,
    pub page_id: u32,
    pub page_index: u32,
    pub text: String,
}

/// The location record of the first sentence in `v` with this row id.
pub open spec fn location_at(v: Seq<Sentence>, row_id: u32) -> Option<(u32, u32)>
    decreases v.len(),
{
    if v.len() == 0 {
        None
    } else if v[0].row_id == row_id {
        Some((v[0].page_id, v[0].page_index))
    } else {
        location_at(v.drop_first(), row_id)
    }
}

/// The text of the first sentence in `v` at this page position.
pub open spec fn text_at(v: Seq<Sentence>, page_id: u32, page_index: u32) -> Option<Seq<char>>
    decreases v.len(),
{
    if v.len() == 0 {
        None
    } else if v[0].page_id == page_id && v[0].page_index == page_index {
        Some(v[0].text@)
    } else {
        text_at(v.drop_first(), page_id, page_index)
    }
}

/// The texts of the sentences of page `page_id` with `page_index` between
/// `lo` and `hi` inclusive, in ascending index order; positions that hold no
/// sentence contribute nothing.
pub open spec fn texts_in_range(v: Seq<Sentence>, page_id: u32, lo: int, hi: int) -> Seq<
    Seq<char>,
>
    decreases hi + 1 - lo,
{
    if lo > hi {
        Seq::empty()
    } else {
        (match text_at(v, page_id, lo as u32) {
            Some(t) => seq![t],
            None => Seq::empty(),
        }) + texts_in_range(v, page_id, lo + 1, hi)
    }
}

pub proof fn lemma_location_at_absent(v: Seq<Sentence>, row_id: u32)
    ensures
        (location_at(v, row_id) is None) <==> (forall|k: int|
            0 <= k < v.len() ==> (#[trigger] v[k]).row_id != row_id),
    decreases v.len(),
{
    if v.len() > 0 {
        let t = v.drop_first();
        lemma_location_at_absent(t, row_id);
        assert(forall|k: int| 0 <= k < t.len() ==> #[trigger] t[k] == v[k + 1]);
        if location_at(v, row_id) is None {
            assert forall|k: int| 0 <= k < v.len() implies (#[trigger] v[k]).row_id
                != row_id by {
                if k > 0 {
                    assert(v[k] == t[k - 1]);
                }
            }
        } else {
            if v[0].row_id != row_id {
                assert(exists|k: int| 0 <= k < t.len() && (#[trigger] t[k]).row_id == row_id);
                let k0 = choose|k: int| 0 <= k < t.len() && (#[trigger] t[k]).row_id == row_id;
                assert(v[k0 + 1].row_id == row_id);
            }
        }
    }
}

pub proof fn lemma_text_at_absent(v: Seq<Sentence>, page_id: u32, page_index: u32)
    ensures
        (text_at(v, page_id, page_index) is None) <==> (forall|k: int|
            0 <= k < v.len() ==> !((#[trigger] v[k]).page_id == page_id && v[k].page_index
                == page_index)),
    decreases v.len(),
{
    if v.len() > 0 {
        let t = v.drop_first();
        lemma_text_at_absent(t, page_id, page_index);
        assert(forall|k: int| 0 <= k < t.len() ==> #[trigger] t[k] == v[k + 1]);
        if text_at(v, page_id, page_index) is None {
            assert forall|k: int| 0 <= k < v.len() implies !((#[trigger] v[k]).page_id == page_id
                && v[k].page_index == page_index) by {
                if k > 0 {
                    assert(v[k] == t[k - 1]);
                }
            }
        } else {
            if !(v[0].page_id == page_id && v[0].page_index == page_index) {
                assert(exists|k: int|
                    0 <= k < t.len() && (#[trigger] t[k]).page_id == page_id && t[k].page_index
                        == page_index);
                let k0 = choose|k: int|
                    0 <= k < t.len() && (#[trigger] t[k]).page_id == page_id && t[k].page_index
                        == page_index;
                assert(v[k0 + 1].page_id == page_id && v[k0 + 1].page_index == page_index);
            }
        }
    }
}

/// The corpus of sentences, read-only once populated.  It stands in for the
/// backing sentence table: the application loads the records it retrieves
/// into this store and the library answers all location and range queries
/// from it.
pub struct SentenceStore {
    sentences: Vec<Sentence>,
}

impl View for SentenceStore {
    type V = Seq<Sentence>;

    closed spec fn view(&self) -> Seq<Sentence> {
        self.sentences@
    }
}

impl SentenceStore {
    /// Well-formed: row ids are unique, and so are page positions.
    pub open spec fn wf(&self) -> bool {
        forall|i: int, j: int|
            0 <= i < j < self@.len() ==> (#[trigger] self@[i]).row_id != (
            #[trigger] self@[j]).row_id && !(self@[i].page_id == self@[j].page_id
                && self@[i].page_index == self@[j].page_index)
    }

    /// An empty store.
    pub fn new() -> (s: Self)
        ensures
            s.wf(),
            s@.len() == 0,
    {
        SentenceStore { sentences: Vec::new() }
    }

    /// Adds a sentence record.  Returns `true` and appends it when neither
    /// its row id nor its page position is taken; returns `false` and leaves
    /// the store unchanged otherwise.
    pub fn insert(&mut self, sentence: Sentence) -> (r: bool)
        requires
            old(self).wf(),
        ensures
            final(self).wf(),
            r == (location_at(old(self)@, sentence.row_id) is None && text_at(
                old(self)@,
                sentence.page_id,
                sentence.page_index,
            ) is None),
            r ==> final(self)@ == old(self)@.push(sentence),
            !r ==> final(self)@ == old(self)@,
    {
        let fresh_row = self.lookup_location(sentence.row_id).is_none();
        let fresh_pos = self.sentence_text(sentence.page_id, sentence.page_index).is_none();
        if fresh_row && fresh_pos {
            proof {
                lemma_location_at_absent(self@, sentence.row_id);
                lemma_text_at_absent(self@, sentence.page_id, sentence.page_index);
            }
            self.sentences.push(sentence);
            true
        } else {
            false
        }
    }

    /// The page id and page index recorded for `row_id`, when present.
    pub fn lookup_location(&self, row_id: u32) -> (r: Option<(u32, u32)>)
        ensures
            r == location_at(self@, row_id),
    {
        let mut i: usize = 0;
        proof {
            assert(self@.skip(0) =~= self@);
        }
        while i < self.sentences.len()
            invariant
                0 <= i <= self@.len(),
                location_at(self@, row_id) == location_at(self@.skip(i as int), row_id),
            decreases self@.len() - i,
        {
            if self.sentences[i].row_id == row_id {
                return Some((self.sentences[i].page_id, self.sentences[i].page_index));
            }
            proof {
                assert(self@.skip(i as int).drop_first() =~= self@.skip(i as int + 1));
            }
            i = i + 1;
        }
        proof {
            assert(self@.skip(self@.len() as int) =~= Seq::<Sentence>::empty());
        }
        None
    }

    /// The text stored at `(page_id, page_index)`, when present.
    pub fn sentence_text(&self, page_id: u32, page_index: u32) -> (r: Option<String>)
        ensures
            (match r {
                Some(t) => text_at(self@, page_id, page_index) == Some(t@),
                None => text_at(self@, page_id, page_index) is None,
            }),
    {
        let mut i: usize = 0;
        proof {
            assert(self@.skip(0) =~= self@);
        }
        while i < self.sentences.len()
            invariant
                0 <= i <= self@.len(),
                text_at(self@, page_id, page_index) == text_at(
                    self@.skip(i as int),
                    page_id,
                    page_index,
                ),
            decreases self@.len() - i,
        {
            if self.sentences[i].page_id == page_id && self.sentences[i].page_index == page_index {
                return Some(self.sentences[i].text.clone());
            }
            proof {
                assert(self@.skip(i as int).drop_first() =~= self@.skip(i as int + 1));
            }
            i = i + 1;
        }
        proof {
            assert(self@.skip(self@.len() as int) =~= Seq::<Sentence>::empty());
        }
        None
    }

    /// The texts of page `page_id` with index between `lo` and `hi`
    /// inclusive, ascending by index; positions without a sentence are
    /// silently skipped, so a window at a page boundary comes back short
    /// rather than failing.
    pub fn sentences_in_range(&self, page_id: u32, lo: u32, hi: u32) -> (r: Vec<String>)
        ensures
            r@.map_values(|t: String| t@) == texts_in_range(self@, page_id, lo as int, hi as int),
    {
        let mut r: Vec<String> = Vec::new();
        let mut idx: u64 = lo as u64;
        proof {
            assert(r@.map_values(|t: String| t@) + texts_in_range(
                self@,
                page_id,
                lo as int,
                hi as int,
            ) =~= texts_in_range(self@, page_id, lo as int, hi as int));
        }
        while idx <= hi as u64
            invariant
                lo as u64 <= idx,
                idx == lo as u64 || idx <= hi as u64 + 1,
                r@.map_values(|t: String| t@) + texts_in_range(
                    self@,
                    page_id,
                    idx as int,
                    hi as int,
                ) == texts_in_range(self@, page_id, lo as int, hi as int),
            decreases hi as int + 1 - idx,
        {
            let ghost r0 = r@;
            match self.sentence_text(page_id, idx as u32) {
                Some(t) => {
                    let ghost tv = t@;
                    r.push(t);
                    proof {
                        assert(r@.map_values(|t: String| t@) =~= r0.map_values(
                            |t: String| t@,
                        ).push(tv));
                        assert(texts_in_range(self@, page_id, idx as int, hi as int) == seq![tv]
                            + texts_in_range(self@, page_id, idx as int + 1, hi as int));
                        assert(r@.map_values(|t: String| t@) + texts_in_range(
                            self@,
                            page_id,
                            idx as int + 1,
                            hi as int,
                        ) =~= r0.map_values(|t: String| t@) + texts_in_range(
                            self@,
                            page_id,
                            idx as int,
                            hi as int,
                        ));
                    }
                },
                None => {
                    proof {
                        assert(texts_in_range(self@, page_id, idx as int, hi as int)
                            =~= texts_in_range(self@, page_id, idx as int + 1, hi as int));
                    }
                },
            }
            idx = idx + 1;
        }
        r
    }
}

/// How many sentences before the matched one a window reaches back.
pub const WINDOW_BEFORE: u32 = 3;

/// How many sentences after the matched one a window reaches forward.
pub const WINDOW_AFTER: u32 = 5;

/// The lowest page index a window around `page_index` covers.
pub open spec fn window_lo(page_index: u32) -> int {
    if page_index >= WINDOW_BEFORE {
        page_index - WINDOW_BEFORE
    } else {
        0
    }
}

/// The highest page index a window around `page_index` covers.
pub open spec fn window_hi(page_index: u32) -> int {
    if page_index + WINDOW_AFTER <= u32::MAX {
        page_index + WINDOW_AFTER
    } else {
        u32::MAX as int
    }
}

proof fn lemma_texts_all_absent(v: Seq<Sentence>, page_id: u32, lo: int, hi: int)
    requires
        forall|idx: int| lo <= idx <= hi ==> (#[trigger] text_at(v, page_id, idx as u32)) is None,
    ensures
        texts_in_range(v, page_id, lo, hi) == Seq::<Seq<char>>::empty(),
    decreases hi + 1 - lo,
{
    if lo <= hi {
        lemma_texts_all_absent(v, page_id, lo + 1, hi);
        assert(texts_in_range(v, page_id, lo, hi) =~= Seq::<Seq<char>>::empty());
    }
}

proof fn lemma_texts_clip_high(v: Seq<Sentence>, page_id: u32, lo: int, hi: int, hi2: int)
    requires
        lo - 1 <= hi2 <= hi,
        forall|idx: int| hi2 < idx <= hi ==> (#[trigger] text_at(v, page_id, idx as u32)) is None,
    ensures
        texts_in_range(v, page_id, lo, hi) == texts_in_range(v, page_id, lo, hi2),
    decreases hi2 + 1 - lo,
{
    if lo > hi2 {
        lemma_texts_all_absent(v, page_id, lo, hi);
        assert(texts_in_range(v, page_id, lo, hi2) =~= Seq::<Seq<char>>::empty());
    } else {
        lemma_texts_clip_high(v, page_id, lo + 1, hi, hi2);
    }
}

proof fn lemma_texts_all_present(v: Seq<Sentence>, page_id: u32, lo: int, hi: int)
    requires
        0 <= lo,
        lo <= hi + 1,
        hi <= u32::MAX,
        forall|idx: int| lo <= idx <= hi ==> (#[trigger] text_at(v, page_id, idx as u32)) is Some,
    ensures
        texts_in_range(v, page_id, lo, hi) == Seq::new(
            (hi + 1 - lo) as nat,
            |k: int| text_at(v, page_id, (lo + k) as u32)->Some_0,
        ),
    decreases hi + 1 - lo,
{
    if lo > hi {
        assert(texts_in_range(v, page_id, lo, hi) =~= Seq::new(
            (hi + 1 - lo) as nat,
            |k: int| text_at(v, page_id, (lo + k) as u32)->Some_0,
        ));
    } else {
        lemma_texts_all_present(v, page_id, lo + 1, hi);
        assert(texts_in_range(v, page_id, lo, hi) =~= Seq::new(
            (hi + 1 - lo) as nat,
            |k: int| text_at(v, page_id, (lo + k) as u32)->Some_0,
        ));
    }
}

/// Law: on a page holding exactly the indices below `page_len`, the window
/// around a match at `page_index` holds exactly the sentences with indices
/// from `max(0, page_index - 3)` through `min(page_len - 1, page_index + 5)`,
/// in ascending index order.
pub proof fn lemma_window_covers_clamped_range(
    v: Seq<Sentence>,
    page_id: u32,
    page_len: u32,
    page_index: u32,
)
    requires
        forall|idx: u32| (#[trigger] text_at(v, page_id, idx)) is Some <==> idx < page_len,
        page_index < page_len,
    ensures
        ({
            let lo = window_lo(page_index);
            let hi = if page_index + WINDOW_AFTER <= page_len - 1 {
                page_index + WINDOW_AFTER
            } else {
                page_len - 1
            };
            texts_in_range(v, page_id, lo, window_hi(page_index)) == Seq::new(
                (hi + 1 - lo) as nat,
                |k: int| text_at(v, page_id, (lo + k) as u32)->Some_0,
            )
        }),
{
    let lo = window_lo(page_index);
    let hi_w = window_hi(page_index);
    let hi: int = if page_index + WINDOW_AFTER <= page_len - 1 {
        page_index + WINDOW_AFTER
    } else {
        page_len - 1
    };
    assert forall|idx: int| hi < idx <= hi_w implies (#[trigger] text_at(
        v,
        page_id,
        idx as u32,
    )) is None by {
        assert(idx as u32 == idx);
        assert((idx as u32) >= page_len);
    }
    lemma_texts_clip_high(v, page_id, lo, hi_w, hi);
    assert forall|idx: int| lo <= idx <= hi implies (#[trigger] text_at(
        v,
        page_id,
        idx as u32,
    )) is Some by {
        assert(idx as u32 == idx);
        assert((idx as u32) < page_len);
    }
    lemma_texts_all_present(v, page_id, lo, hi);
}

/// The inclusive index bounds of the window around `page_index`: three
/// sentences back, five forward, clamped to the representable range.
pub fn window_bounds(page_index: u32) -> (r: (u32, u32))
    ensures
        r.0 == window_lo(page_index),
        r.1 == window_hi(page_index),
{
    let lo: u32 = if page_index >= WINDOW_BEFORE {
        page_index - WINDOW_BEFORE
    } else {
        0
    };
    let hi: u32 = if page_index <= u32::MAX - WINDOW_AFTER {
        page_index + WINDOW_AFTER
    } else {
        u32::MAX
    };
    (lo, hi)
}

} // verus!
