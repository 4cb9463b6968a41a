use vstd::prelude::*;
use crate::table::Table;
use crate::text::{text_before, text_lt};

verus! {

/// What the index records of a document: its latest version, when it was
/// created and last updated, and its tags.
pub struct PromptIndexEntry {
    pub latest: String,
    pub created_at: String,
    pub updated_at: String,
    pub tags: Table<String>,
}

/// The catalog of documents, by name.
pub type PromptIndex = Table<PromptIndexEntry>;

/// Puts `entry` under `name`, replacing any earlier entry.
pub fn update_index_entry(index: &mut PromptIndex, name: &str, entry: PromptIndexEntry)
    requires
        old(index).wf(),
    ensures
        final(index).wf(),
        final(index).map() == old(index).map().insert(name@, entry),
{
    index.insert(name.to_owned(), entry);
}

/// Takes the entry of `name` out of the index; nothing happens where there is none.
pub fn remove_index_entry(index: &mut PromptIndex, name: &str)
    requires
        old(index).wf(),
    ensures
        final(index).wf(),
        final(index).map() == old(index).map().remove(name@),
{
    index.remove(name);
}

/// The entry of `name`, if the index has one.
pub fn get_index_entry<'a>(index: &'a PromptIndex, name: &str) -> (r: Option<&'a PromptIndexEntry>)
    requires
        index.wf(),
    ensures
        r.is_some() == index.map().contains_key(name@),
        r.is_some() ==> *r.unwrap() == index.map()[name@],
{
    index.get(name)
}

/// A line of the document list.
pub struct PromptSummary {
    pub name: String,
    pub latest: String,
    pub updated_at: String,
}

/// `s` describes the entry of the index under its name.
pub open spec fn summary_of(index: Map<Seq<char>, PromptIndexEntry>, s: PromptSummary) -> bool {
    &&& index.contains_key(s.name@)
    &&& s.latest@ == index[s.name@].latest@
    &&& s.updated_at@ == index[s.name@].updated_at@
}

/// Some line of `s` is for `name`.
pub open spec fn listed(s: Seq<PromptSummary>, name: Seq<char>) -> bool {
    exists|i: int| 0 <= i < s.len() && (#[trigger] s[i]).name@ == name
}

/// Most recently updated first.
pub open spec fn by_update_desc(s: Seq<PromptSummary>) -> bool {
    forall|i: int, j: int|
        0 <= i < j < s.len() ==> !text_lt(#[trigger] s[i].updated_at@, #[trigger] s[j].updated_at@)
}

proof fn lemma_text_lt_total(a: Seq<char>, b: Seq<char>)
    ensures
        !text_lt(a, b) && !text_lt(b, a) ==> a == b,
        !(text_lt(a, b) && text_lt(b, a)),
    decreases a.len(),
{
    if a.len() == 0 && b.len() == 0 {
        assert(a =~= b);
    }
    if a.len() > 0 && b.len() > 0 && a[0] != b[0] {
        vstd::utf8::char_u32_cast(a[0], a[0] as u32);
        vstd::utf8::char_u32_cast(b[0], b[0] as u32);
    }
    if a.len() > 0 && b.len() > 0 && a[0] == b[0] {
        lemma_text_lt_total(a.drop_first(), b.drop_first());
        if !text_lt(a, b) && !text_lt(b, a) {
            assert(a =~= seq![a[0]] + a.drop_first());
            assert(b =~= seq![b[0]] + b.drop_first());
        }
    }
}

proof fn lemma_text_lt_trans(a: Seq<char>, b: Seq<char>, c: Seq<char>)
    requires
        text_lt(a, b),
        text_lt(b, c),
    ensures
        text_lt(a, c),
    decreases a.len(),
{
    if a.len() > 0 && a[0] == b[0] && b[0] == c[0] {
        lemma_text_lt_trans(a.drop_first(), b.drop_first(), c.drop_first());
    }
}

fn summary_clone(index: &PromptIndex, i: usize) -> (r: PromptSummary)
    requires
        index.wf(),
        i < index.map().dom().len(),
    ensures
        summary_of(index.map(), r),
        r.name@ == index.key_at(i as int),
{
    let (name, e) = index.entry(i);
    PromptSummary { name: name.clone(), latest: e.latest.clone(), updated_at: e.updated_at.clone() }
}

/// The documents of the index with their latest version, most recently
/// updated first (timestamps compared as text). Each document appears once.
pub fn list_prompts(index: &PromptIndex) -> (r: Vec<PromptSummary>)
    requires
        index.wf(),
    ensures
        r@.len() == index.map().dom().len(),
        forall|i: int| 0 <= i < r@.len() ==> summary_of(index.map(), #[trigger] r@[i]),
        forall|name: Seq<char>| #[trigger] index.map().contains_key(name) ==> listed(r@, name),
        by_update_desc(r@),
{
    let n = index.len();
    let mut r: Vec<PromptSummary> = Vec::new();
    let mut i: usize = 0;
    while i < n
        invariant
            n == index.map().dom().len(),
            index.wf(),
            i <= n,
            r@.len() == i,
            forall|k: int| 0 <= k < r@.len() ==> summary_of(index.map(), #[trigger] r@[k]),
            forall|j: int| 0 <= j < i ==> #[trigger] listed(r@, index.key_at(j)),
            by_update_desc(r@),
        decreases n - i,
    {
        let s = summary_clone(index, i);
        let mut p: usize = 0;
        while p < r.len() && !text_before(r[p].updated_at.as_str(), s.updated_at.as_str())
            invariant
                p <= r@.len(),
                forall|k: int| 0 <= k < p ==> !text_lt(#[trigger] r@[k].updated_at@, s.updated_at@),
            decreases r@.len() - p,
        {
            p = p + 1;
        }
        let ghost old_r = r@;
        r.insert(p, s);
        proof {
            assert(r@ == old_r.insert(p as int, s));
            assert forall|a: int, b: int| 0 <= a < b < r@.len() implies !text_lt(
                #[trigger] r@[a].updated_at@,
                #[trigger] r@[b].updated_at@,
            ) by {
                if a < p && b > p {
                    assert(r@[a] == old_r[a] && r@[b] == old_r[b - 1]);
                } else if a == p && b > p {
                    let w = old_r[p as int].updated_at@;
                    let y = old_r[b - 1].updated_at@;
                    let z = s.updated_at@;
                    assert(r@[b] == old_r[b - 1]);
                    assert(text_lt(w, z));
                    if text_lt(z, y) {
                        lemma_text_lt_trans(w, z, y);
                        lemma_text_lt_total(w, y);
                    }
                } else if a < p && b == p {
                    assert(r@[a] == old_r[a]);
                } else if b < p {
                    assert(r@[a] == old_r[a] && r@[b] == old_r[b]);
                } else {
                    assert(r@[a] == old_r[a - 1] && r@[b] == old_r[b - 1]);
                }
            }
            assert forall|j: int| 0 <= j < i + 1 implies #[trigger] listed(r@, index.key_at(j)) by {
                if j == i {
                    assert(r@[p as int].name@ == index.key_at(j));
                } else {
                    assert(listed(old_r, index.key_at(j)));
                    let k = choose|k: int| 0 <= k < old_r.len() && (#[trigger] old_r[k]).name@ == index.key_at(j);
                    if k < p {
                        assert(r@[k] == old_r[k]);
                    } else {
                        assert(r@[k + 1] == old_r[k]);
                    }
                }
            }
            assert forall|k: int| 0 <= k < r@.len() implies summary_of(index.map(), #[trigger] r@[k]) by {
                if k < p {
                    assert(r@[k] == old_r[k]);
                } else if k > p {
                    assert(r@[k] == old_r[k - 1]);
                }
            }
        }
        i = i + 1;
    }
    proof {
        index.lemma_keys();
        assert forall|name: Seq<char>| #[trigger] index.map().contains_key(name) implies listed(r@, name) by {
            let j = choose|j: int| 0 <= j < index.map().dom().len() && #[trigger] index.key_at(j) == name;
            assert(listed(r@, index.key_at(j)));
        }
    }
    r
}

} // verus!
