use vstd::prelude::*;

verus! {

/// What a line or a run of lines is in a diff.
#[derive(PartialEq, Eq, Structural, Clone, Copy, Debug)]
pub enum DiffTag {
    Equal,
    Insert,
    Delete,
}

impl DiffTag {
    /// The tag's name: `equal`, `insert` or `delete`.
    pub fn as_str(&self) -> &'static str {
        match self {
            DiffTag::Equal => "equal",
            DiffTag::Insert => "insert",
            DiffTag::Delete => "delete",
        }
    }
}

/// One line of an edit script, with its tag.
pub struct LineChange {
    pub tag: DiffTag,
    pub line: String,
}

/// A maximal run of lines with one tag; `[old_start, old_end)` and
/// `[new_start, new_end)` are its line ranges on the two sides.
pub struct DiffChunk {
    pub tag: DiffTag,
    pub old_start: usize,
    pub old_end: usize,
    pub new_start: usize,
    pub new_end: usize,
    pub lines: Vec<String>,
}

pub open spec fn change_views(cs: Seq<LineChange>) -> Seq<(DiffTag, Seq<char>)> {
    cs.map_values(|c: LineChange| (c.tag, c.line@))
}

/// The edit script that the line differ produces for two texts.
pub uninterp spec fn similar_line_changes(old: Seq<char>, new: Seq<char>) -> Seq<(DiffTag, Seq<char>)>;

/// The text of the old side of an edit script: its equal and deleted lines.
pub open spec fn old_side(cs: Seq<(DiffTag, Seq<char>)>) -> Seq<char>
    decreases cs.len(),
{
    if cs.len() == 0 {
        Seq::empty()
    } else {
        old_side(cs.drop_last()) + if cs.last().0 != DiffTag::Insert {
            cs.last().1
        } else {
            Seq::empty()
        }
    }
}

/// The text of the new side of an edit script: its equal and inserted lines.
pub open spec fn new_side(cs: Seq<(DiffTag, Seq<char>)>) -> Seq<char>
    decreases cs.len(),
{
    if cs.len() == 0 {
        Seq::empty()
    } else {
        new_side(cs.drop_last()) + if cs.last().0 != DiffTag::Delete {
            cs.last().1
        } else {
            Seq::empty()
        }
    }
}

/// Relies on `similar::TextDiff::from_lines` and `iter_all_changes`: the
/// equal and deleted lines spell the old text, the equal and inserted lines
/// the new one, no line is empty, and two equal texts give equal lines only.
#[verifier::external_body]
fn line_changes(old: &str, new: &str) -> (r: Vec<LineChange>)
    ensures
        change_views(r@) == similar_line_changes(old@, new@),
        old_side(change_views(r@)) == old@,
        new_side(change_views(r@)) == new@,
        forall|i: int| 0 <= i < r@.len() ==> (#[trigger] r@[i]).line@.len() > 0,
        old@ == new@ ==> forall|i: int| 0 <= i < r@.len() ==> (#[trigger] r@[i]).tag == DiffTag::Equal,
{
    let diff = similar::TextDiff::from_lines(old, new);
    let mut r = Vec::new();
    for c in diff.iter_all_changes() {
        let tag = match c.tag() {
            similar::ChangeTag::Equal => DiffTag::Equal,
            similar::ChangeTag::Insert => DiffTag::Insert,
            similar::ChangeTag::Delete => DiffTag::Delete,
        };
        r.push(LineChange { tag, line: c.value().to_string() });
    }
    r
}

/// The lines of a chunk, each with the chunk's tag.
pub open spec fn tagged(c: DiffChunk) -> Seq<(DiffTag, Seq<char>)> {
    c.lines@.map_values(|l: String| (c.tag, l@))
}

/// The edit script that a sequence of chunks spells out.
pub open spec fn flatten(chunks: Seq<DiffChunk>) -> Seq<(DiffTag, Seq<char>)>
    decreases chunks.len(),
{
    if chunks.len() == 0 {
        Seq::empty()
    } else {
        flatten(chunks.drop_last()) + tagged(chunks.last())
    }
}

/// How many lines of the old side a run of `n` lines with this tag spans.
pub open spec fn old_width(tag: DiffTag, n: nat) -> nat {
    if tag == DiffTag::Insert { 0 } else { n }
}

/// How many lines of the new side a run of `n` lines with this tag spans.
pub open spec fn new_width(tag: DiffTag, n: nat) -> nat {
    if tag == DiffTag::Delete { 0 } else { n }
}

/// The ranges of chunk `k` start where those of chunk `k - 1` end (at 0 for
/// the first) and span its lines on the sides that hold them.
pub open spec fn chunk_ranges_ok(chunks: Seq<DiffChunk>, k: int) -> bool {
    &&& k == 0 ==> chunks[k].old_start == 0 && chunks[k].new_start == 0
    &&& k > 0 ==> chunks[k].old_start == chunks[k - 1].old_end && chunks[k].new_start
        == chunks[k - 1].new_end
    &&& chunks[k].old_end == chunks[k].old_start + old_width(chunks[k].tag, chunks[k].lines@.len())
    &&& chunks[k].new_end == chunks[k].new_start + new_width(chunks[k].tag, chunks[k].lines@.len())
}

/// Chunk `k` has another tag than chunk `k - 1`.
pub open spec fn tag_changes_at(chunks: Seq<DiffChunk>, k: int) -> bool {
    chunks[k].tag != chunks[k - 1].tag
}

/// `chunks` are the maximal runs of one tag of the edit script `cs`, in order,
/// with their line ranges.
pub open spec fn chunks_of(chunks: Seq<DiffChunk>, cs: Seq<(DiffTag, Seq<char>)>) -> bool {
    &&& flatten(chunks) == cs
    &&& forall|k: int| 0 <= k < chunks.len() ==> (#[trigger] chunks[k]).lines@.len() > 0
    &&& forall|k: int| 0 < k < chunks.len() ==> #[trigger] tag_changes_at(chunks, k)
    &&& forall|k: int| 0 <= k < chunks.len() ==> #[trigger] chunk_ranges_ok(chunks, k)
}

proof fn lemma_flatten_push(chunks: Seq<DiffChunk>, c: DiffChunk)
    ensures
        flatten(chunks.push(c)) == flatten(chunks) + tagged(c),
{
    assert(chunks.push(c).drop_last() =~= chunks);
}

proof fn lemma_extend_last(prev: Seq<DiffChunk>, c: DiffChunk, cs: Seq<(DiffTag, Seq<char>)>, line: String)
    requires
        chunks_of(prev, cs),
        prev.len() > 0,
        c.tag == prev.last().tag,
        c.lines@ == prev.last().lines@.push(line),
        c.old_start == prev.last().old_start,
        c.new_start == prev.last().new_start,
        c.old_end == prev.last().old_end + old_width(c.tag, 1),
        c.new_end == prev.last().new_end + new_width(c.tag, 1),
    ensures
        chunks_of(prev.drop_last().push(c), cs.push((c.tag, line@))),
{
    let next = prev.drop_last().push(c);
    assert(tagged(c) =~= tagged(prev.last()).push((c.tag, line@)));
    lemma_flatten_push(prev.drop_last(), c);
    lemma_flatten_push(prev.drop_last(), prev.last());
    assert(prev.drop_last().push(prev.last()) =~= prev);
    assert(flatten(next) =~= cs.push((c.tag, line@)));
    assert forall|k: int| 0 <= k < next.len() implies #[trigger] chunk_ranges_ok(next, k) by {
        assert(chunk_ranges_ok(prev, k));
    }
    assert forall|k: int| 0 < k < next.len() implies #[trigger] tag_changes_at(next, k) by {
        assert(tag_changes_at(prev, k));
    }
    assert forall|k: int| 0 <= k < next.len() implies (#[trigger] next[k]).lines@.len() > 0 by {
        assert(prev[k].lines@.len() > 0);
    }
}

proof fn lemma_open_chunk(prev: Seq<DiffChunk>, c: DiffChunk, cs: Seq<(DiffTag, Seq<char>)>, line: String)
    requires
        chunks_of(prev, cs),
        c.lines@ == seq![line],
        prev.len() == 0 ==> c.old_start == 0 && c.new_start == 0,
        prev.len() > 0 ==> c.tag != prev.last().tag && c.old_start == prev.last().old_end
            && c.new_start == prev.last().new_end,
        c.old_end == c.old_start + old_width(c.tag, 1),
        c.new_end == c.new_start + new_width(c.tag, 1),
    ensures
        chunks_of(prev.push(c), cs.push((c.tag, line@))),
{
    let next = prev.push(c);
    assert(tagged(c) =~= seq![(c.tag, line@)]);
    lemma_flatten_push(prev, c);
    assert(flatten(next) =~= cs.push((c.tag, line@)));
    assert forall|k: int| 0 <= k < next.len() implies #[trigger] chunk_ranges_ok(next, k) by {
        if k < prev.len() {
            assert(chunk_ranges_ok(prev, k));
        } else if k > 0 {
            assert(next[k - 1] == prev.last());
        }
    }
    assert forall|k: int| 0 < k < next.len() implies #[trigger] tag_changes_at(next, k) by {
        if k < prev.len() {
            assert(tag_changes_at(prev, k));
        } else {
            assert(next[k - 1] == prev.last());
        }
    }
    assert forall|k: int| 0 <= k < next.len() implies (#[trigger] next[k]).lines@.len() > 0 by {
        if k < prev.len() {
            assert(prev[k].lines@.len() > 0);
        }
    }
}

/// Merges an edit script into maximal runs of one tag, keeping for each run
/// the line ranges it covers on the old and the new side.
pub fn chunks_from_changes(changes: &Vec<LineChange>) -> (r: Vec<DiffChunk>)
    ensures
        chunks_of(r@, change_views(changes@)),
{
    let ghost cs = change_views(changes@);
    let mut chunks: Vec<DiffChunk> = Vec::new();
    let mut old_line: usize = 0;
    let mut new_line: usize = 0;
    let mut i: usize = 0;
    assert(cs.take(0) =~= Seq::<(DiffTag, Seq<char>)>::empty());
    while i < changes.len()
        invariant
            i <= changes@.len(),
            cs == change_views(changes@),
            old_line <= i,
            new_line <= i,
            chunks_of(chunks@, cs.take(i as int)),
            chunks@.len() == 0 ==> old_line == 0 && new_line == 0,
            chunks@.len() > 0 ==> chunks@.last().old_end == old_line && chunks@.last().new_end
                == new_line,
        decreases changes@.len() - i,
    {
        let tag = changes[i].tag;
        let line = changes[i].line.clone();
        let ghost prev = chunks@;
        assert(cs.take(i + 1) =~= cs.take(i as int).push((tag, line@)));
        let n = chunks.len();
        if n > 0 && chunks[n - 1].tag == tag {
            let mut c = chunks.pop().unwrap();
            c.lines.push(line);
            if tag != DiffTag::Insert {
                old_line = old_line + 1;
                c.old_end = old_line;
            }
            if tag != DiffTag::Delete {
                new_line = new_line + 1;
                c.new_end = new_line;
            }
            chunks.push(c);
            proof {
                lemma_extend_last(prev, c, cs.take(i as int), line);
            }
        } else {
            let start_old = old_line;
            let start_new = new_line;
            if tag != DiffTag::Insert {
                old_line = old_line + 1;
            }
            if tag != DiffTag::Delete {
                new_line = new_line + 1;
            }
            let mut lines: Vec<String> = Vec::new();
            lines.push(line);
            let c = DiffChunk {
                tag,
                old_start: start_old,
                old_end: old_line,
                new_start: start_new,
                new_end: new_line,
                lines,
            };
            chunks.push(c);
            proof {
                lemma_open_chunk(prev, c, cs.take(i as int), line);
            }
        }
        i = i + 1;
    }
    assert(cs.take(i as int) =~= cs);
    chunks
}

proof fn lemma_empty_script(cs: Seq<(DiffTag, Seq<char>)>)
    requires
        old_side(cs).len() == 0,
        new_side(cs).len() == 0,
        forall|i: int| 0 <= i < cs.len() ==> (#[trigger] cs[i]).1.len() > 0,
    ensures
        cs.len() == 0,
{
    if cs.len() > 0 {
        assert(cs.last().1.len() > 0);
    }
}

proof fn lemma_no_chunks(chunks: Seq<DiffChunk>)
    requires
        flatten(chunks).len() == 0,
        forall|k: int| 0 <= k < chunks.len() ==> (#[trigger] chunks[k]).lines@.len() > 0,
    ensures
        chunks.len() == 0,
{
    if chunks.len() > 0 {
        assert(chunks[chunks.len() - 1].lines@.len() > 0);
    }
}

proof fn lemma_uniform_tags(chunks: Seq<DiffChunk>, t: DiffTag)
    requires
        forall|k: int| 0 <= k < chunks.len() ==> (#[trigger] chunks[k]).lines@.len() > 0,
        forall|i: int| 0 <= i < flatten(chunks).len() ==> (#[trigger] flatten(chunks)[i]).0 == t,
    ensures
        forall|k: int| 0 <= k < chunks.len() ==> (#[trigger] chunks[k]).tag == t,
    decreases chunks.len(),
{
    if chunks.len() > 0 {
        let dl = chunks.drop_last();
        assert forall|i: int| 0 <= i < flatten(dl).len() implies (#[trigger] flatten(dl)[i]).0 == t by {
            assert(flatten(chunks)[i] == flatten(dl)[i]);
        }
        assert forall|k: int| 0 <= k < dl.len() implies (#[trigger] dl[k]).lines@.len() > 0 by {
            assert(dl[k] == chunks[k]);
        }
        lemma_uniform_tags(dl, t);
        let last = chunks.last();
        assert(last.lines@.len() > 0);
        assert(flatten(chunks)[flatten(dl).len() as int] == tagged(last)[0]);
        assert forall|k: int| 0 <= k < chunks.len() implies (#[trigger] chunks[k]).tag == t by {
            if k < dl.len() {
                assert(dl[k] == chunks[k]);
            }
        }
    }
}

/// The line diff of two texts: the line differ's edit script merged into
/// maximal runs of one tag. The old side of the chunks spells the old text
/// and the new side the new one. Two equal texts give no chunk where they are
/// empty and otherwise one `equal` chunk over all their lines.
pub fn compute_diff(old_text: &str, new_text: &str) -> (r: Vec<DiffChunk>)
    ensures
        chunks_of(r@, similar_line_changes(old_text@, new_text@)),
        old_side(flatten(r@)) == old_text@,
        new_side(flatten(r@)) == new_text@,
        old_text@ == new_text@ && old_text@.len() == 0 ==> r@.len() == 0,
        old_text@ == new_text@ && old_text@.len() > 0 ==> {
            &&& r@.len() == 1
            &&& r@[0].tag == DiffTag::Equal
            &&& r@[0].old_start == 0 && r@[0].old_end == r@[0].lines@.len()
            &&& r@[0].new_start == 0 && r@[0].new_end == r@[0].lines@.len()
            &&& old_side(tagged(r@[0])) == old_text@
        },
{
    let changes = line_changes(old_text, new_text);
    let r = chunks_from_changes(&changes);
    proof {
        let cs = change_views(changes@);
        assert forall|i: int| 0 <= i < cs.len() implies (#[trigger] cs[i]).1.len() > 0 by {
            assert(changes@[i].line@.len() > 0);
        }
        if old_text@ == new_text@ {
            if old_text@.len() == 0 {
                lemma_empty_script(cs);
                lemma_no_chunks(r@);
            } else {
                assert forall|i: int| 0 <= i < flatten(r@).len() implies (#[trigger] flatten(
                    r@,
                )[i]).0 == DiffTag::Equal by {
                    assert(changes@[i].tag == DiffTag::Equal);
                }
                lemma_uniform_tags(r@, DiffTag::Equal);
                if r@.len() == 0 {
                    assert(cs.len() == 0);
                }
                if r@.len() > 1 {
                    assert(tag_changes_at(r@, 1));
                }
                assert(chunk_ranges_ok(r@, 0));
                assert(r@.drop_last() =~= Seq::<DiffChunk>::empty());
                assert(flatten(r@.drop_last()) =~= Seq::empty());
                assert(r@.last() == r@[0]);
                assert(flatten(r@) =~= tagged(r@[0]));
            }
        }
    }
    r
}

} // verus!
