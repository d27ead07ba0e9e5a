//! Flattening a parsed document into node records, parents first.
use vstd::prelude::*;
use vstd::string::*;
use crate::lexer::{trim_chars, trimmed};
use crate::text::{chars_of, string_from_chars};

verus! {

broadcast use vstd::std_specs::vec::group_vec_axioms;

/// An element of a parsed document: its tag, its attributes in document
/// order, the text pieces that stand directly inside it, and its child
/// elements in document order.
pub struct Element {
    pub tag_name: String,
    pub attributes: Vec<(String, String)>,
    pub texts: Vec<String>,
    pub children: Vec<Element>,
}

/// One element of the flattened tree.
#[derive(Debug, Clone, PartialEq, Eq)]
pub struct NodeData {
    pub id: i64,
    pub tag_name: String,
    pub text_content: Option<String>,
    pub attributes: Vec<(String, String)>,
    pub parent_id: Option<i64>,
    pub depth: i32,
}

pub struct NodeV {
    pub id: int,
    pub tag_name: Seq<char>,
    pub text_content: Option<Seq<char>>,
    pub attributes: Seq<(Seq<char>, Seq<char>)>,
    pub parent_id: Option<int>,
    pub depth: int,
}

pub open spec fn pairs_view(v: Seq<(String, String)>) -> Seq<(Seq<char>, Seq<char>)> {
    v.map_values(|p: (String, String)| (p.0@, p.1@))
}

pub open spec fn strings_view(v: Seq<String>) -> Seq<Seq<char>> {
    v.map_values(|s: String| s@)
}

impl View for NodeData {
    type V = NodeV;

    open spec fn view(&self) -> NodeV {
        NodeV {
            id: self.id as int,
            tag_name: self.tag_name@,
            text_content: match self.text_content {
                Some(t) => Some(t@),
                None => None,
            },
            attributes: pairs_view(self.attributes@),
            parent_id: match self.parent_id {
                Some(p) => Some(p as int),
                None => None,
            },
            depth: self.depth as int,
        }
    }
}

pub open spec fn nodes_view(v: Seq<NodeData>) -> Seq<NodeV> {
    v.map_values(|n: NodeData| n@)
}

/// The trimmed text pieces that are not empty, in order.
pub open spec fn text_parts(ts: Seq<Seq<char>>) -> Seq<Seq<char>>
    decreases ts.len(),
{
    if ts.len() == 0 {
        Seq::empty()
    } else {
        let rest = text_parts(ts.drop_last());
        let t = trimmed(ts.last());
        if t.len() == 0 {
            rest
        } else {
            rest.push(t)
        }
    }
}

/// The pieces joined by single spaces.
pub open spec fn join_spaced(ps: Seq<Seq<char>>) -> Seq<char>
    decreases ps.len(),
{
    if ps.len() == 0 {
        Seq::empty()
    } else if ps.len() == 1 {
        ps[0]
    } else {
        join_spaced(ps.drop_last()) + seq![' '] + ps.last()
    }
}

/// The text of an element: its non-empty trimmed pieces joined by spaces,
/// or nothing where there is none.
pub open spec fn merged_text(ts: Seq<Seq<char>>) -> Option<Seq<char>> {
    let ps = text_parts(ts);
    if ps.len() == 0 {
        None
    } else {
        Some(join_spaced(ps))
    }
}

/// The number of elements in the tree under `e`, `e` included.
pub open spec fn count(e: Element) -> nat
    decreases e,
{
    1 + count_all(e.children@)
}

pub open spec fn count_all(cs: Seq<Element>) -> nat
    decreases cs,
{
    if cs.len() == 0 {
        0
    } else {
        count_all(cs.drop_last()) + count(cs.last())
    }
}

/// The number of levels in the tree under `e`.
pub open spec fn height(e: Element) -> nat
    decreases e,
{
    1 + height_all(e.children@)
}

pub open spec fn height_all(cs: Seq<Element>) -> nat
    decreases cs,
{
    if cs.len() == 0 {
        0
    } else {
        let a = height_all(cs.drop_last());
        let b = height(cs.last());
        if a >= b {
            a
        } else {
            b
        }
    }
}

/// The record of `e` itself; its attributes hold each name once, with the
/// last value given to it.
pub open spec fn record(e: Element, id: int, parent: Option<int>, depth: int) -> NodeV {
    NodeV {
        id,
        tag_name: e.tag_name@,
        text_content: merged_text(strings_view(e.texts@)),
        attributes: last_wins(pairs_view(e.attributes@)),
        parent_id: parent,
        depth,
    }
}

/// The records of the tree under `e` in pre-order, numbered from `id` on.
pub open spec fn preorder(e: Element, id: int, parent: Option<int>, depth: int) -> Seq<NodeV>
    decreases e,
{
    seq![record(e, id, parent, depth)] + preorder_all(e.children@, id + 1, Some(id), depth + 1)
}

/// The records of the trees under `cs`, one after the other, numbered from
/// `id` on, each root with the given parent and depth.
pub open spec fn preorder_all(cs: Seq<Element>, id: int, parent: Option<int>, depth: int) -> Seq<NodeV>
    decreases cs,
{
    if cs.len() == 0 {
        Seq::empty()
    } else {
        let front = cs.drop_last();
        preorder_all(front, id, parent, depth) + preorder(
            cs.last(),
            id + count_all(front),
            parent,
            depth,
        )
    }
}

pub open spec fn id_view(p: Option<i64>) -> Option<int> {
    match p {
        Some(i) => Some(i as int),
        None => None,
    }
}

/// The text of an element from its text pieces: see `merged_text`.
pub fn merge_text(texts: &Vec<String>) -> (r: Option<String>)
    ensures
        match r {
            Some(t) => merged_text(strings_view(texts@)) == Some(t@),
            None => merged_text(strings_view(texts@)) is None,
        },
{
    let ghost sv = strings_view(texts@);
    let mut out: Vec<char> = Vec::new();
    let mut any = false;
    let mut i: usize = 0;
    proof {
        assert(sv.take(0) =~= Seq::<Seq<char>>::empty());
    }
    while i < texts.len()
        invariant
            i <= texts.len(),
            sv == strings_view(texts@),
            any == (text_parts(sv.take(i as int)).len() > 0),
            out@ == join_spaced(text_parts(sv.take(i as int))),
        decreases texts.len() - i,
    {
        let ghost ps = text_parts(sv.take(i as int));
        let cs = chars_of(texts[i].as_str());
        let t = trim_chars(&cs);
        proof {
            assert(sv.take(i + 1).drop_last() =~= sv.take(i as int));
            assert(sv.take(i + 1).last() == texts@[i as int]@);
        }
        if t.len() > 0 {
            if any {
                out.push(' ');
            }
            let ghost base = out@;
            let mut k: usize = 0;
            while k < t.len()
                invariant
                    k <= t.len(),
                    out@ == base + t@.take(k as int),
                decreases t.len() - k,
            {
                out.push(t[k]);
                proof {
                    assert(out@ =~= base + t@.take(k + 1));
                }
                k = k + 1;
            }
            proof {
                assert(t@.take(t.len() as int) =~= t@);
                assert(ps.push(t@).drop_last() =~= ps);
                if ps.len() == 0 {
                    assert(out@ =~= t@);
                } else {
                    assert(out@ =~= join_spaced(ps) + seq![' '] + t@);
                }
            }
            any = true;
        }
        i = i + 1;
    }
    proof {
        assert(sv.take(texts.len() as int) =~= sv);
    }
    if any {
        Some(string_from_chars(out.as_slice()))
    } else {
        None
    }
}

/// The position of `name` among the names of `ps`, or -1.
pub open spec fn name_index(ps: Seq<(Seq<char>, Seq<char>)>, name: Seq<char>) -> int
    decreases ps.len(),
{
    if ps.len() == 0 {
        -1
    } else {
        let i = name_index(ps.drop_last(), name);
        if i >= 0 {
            i
        } else if ps.last().0 == name {
            ps.len() - 1
        } else {
            -1
        }
    }
}

/// The pairs of `ps` with one pair per name: each name where it first
/// occurs, with the last value given to it.
pub open spec fn last_wins(ps: Seq<(Seq<char>, Seq<char>)>) -> Seq<(Seq<char>, Seq<char>)>
    decreases ps.len(),
{
    if ps.len() == 0 {
        Seq::empty()
    } else {
        let r = last_wins(ps.drop_last());
        let i = name_index(r, ps.last().0);
        if i >= 0 {
            r.update(i, ps.last())
        } else {
            r.push(ps.last())
        }
    }
}

proof fn lemma_name_index(ps: Seq<(Seq<char>, Seq<char>)>, name: Seq<char>)
    ensures
        -1 <= name_index(ps, name) < ps.len(),
        name_index(ps, name) >= 0 ==> ps[name_index(ps, name)].0 == name,
        forall|m: int| 0 <= m < ps.len() && m < name_index(ps, name) ==> #[trigger] ps[m].0 != name,
        name_index(ps, name) == -1 ==> forall|m: int| 0 <= m < ps.len() ==> #[trigger] ps[m].0 != name,
    decreases ps.len(),
{
    if ps.len() > 0 {
        lemma_name_index(ps.drop_last(), name);
        let i = name_index(ps.drop_last(), name);
        assert forall|m: int| 0 <= m < ps.len() - 1 implies #[trigger] ps[m] == ps.drop_last()[m] by {}
    }
}

/// Names in `ps` occur once each.
pub open spec fn unique_names(ps: Seq<(Seq<char>, Seq<char>)>) -> bool {
    forall|i: int, j: int| 0 <= i < j < ps.len() ==> #[trigger] ps[i].0 != #[trigger] ps[j].0
}

/// Keeping the last value per name leaves each name once.
pub proof fn last_wins_names_unique(ps: Seq<(Seq<char>, Seq<char>)>)
    ensures
        unique_names(last_wins(ps)),
    decreases ps.len(),
{
    if ps.len() > 0 {
        let r = last_wins(ps.drop_last());
        last_wins_names_unique(ps.drop_last());
        lemma_name_index(r, ps.last().0);
        let out = last_wins(ps);
        if name_index(r, ps.last().0) >= 0 {
            assert forall|i: int, j: int| 0 <= i < j < out.len() implies #[trigger] out[i].0
                != #[trigger] out[j].0 by {
                assert(r[i].0 != r[j].0);
            }
        } else {
            assert forall|i: int, j: int| 0 <= i < j < out.len() implies #[trigger] out[i].0
                != #[trigger] out[j].0 by {
                if j < r.len() {
                    assert(r[i].0 != r[j].0);
                } else {
                    assert(r[i].0 != ps.last().0);
                }
            }
        }
    }
}

/// The attributes with one pair per name, the last value winning.
fn copy_pairs(v: &Vec<(String, String)>) -> (r: Vec<(String, String)>)
    ensures
        pairs_view(r@) == last_wins(pairs_view(v@)),
{
    let ghost pv = pairs_view(v@);
    let mut r: Vec<(String, String)> = Vec::new();
    let mut i: usize = 0;
    proof {
        assert(pairs_view(r@) =~= last_wins(pv.take(0)));
    }
    while i < v.len()
        invariant
            i <= v.len(),
            pv == pairs_view(v@),
            pairs_view(r@) == last_wins(pv.take(i as int)),
        decreases v.len() - i,
    {
        let ghost before = pairs_view(r@);
        let p = (v[i].0.clone(), v[i].1.clone());
        proof {
            assert(pv.take(i + 1).drop_last() =~= pv.take(i as int));
            assert(pv.take(i + 1).last() == (p.0@, p.1@));
            lemma_name_index(before, p.0@);
        }
        let mut k: usize = 0;
        while k < r.len() && r[k].0 != p.0
            invariant
                k <= r.len(),
                before == pairs_view(r@),
                forall|m: int| 0 <= m < k ==> #[trigger] before[m].0 != p.0@,
            decreases r.len() - k,
        {
            k = k + 1;
        }
        proof {
            if k < r.len() {
                assert(before[k as int].0 == p.0@);
                assert(name_index(before, p.0@) == k);
            } else {
                assert(name_index(before, p.0@) == -1);
            }
        }
        if k < r.len() {
            r[k] = p;
            proof {
                assert(pairs_view(r@) =~= before.update(k as int, (p.0@, p.1@)));
            }
        } else {
            r.push(p);
            proof {
                assert(pairs_view(r@) =~= before.push((p.0@, p.1@)));
            }
        }
        i = i + 1;
    }
    proof {
        assert(pv.take(v.len() as int) =~= pv);
    }
    r
}

proof fn lemma_count_all_prefix(cs: Seq<Element>, i: int)
    requires
        0 <= i <= cs.len(),
    ensures
        count_all(cs.take(i)) <= count_all(cs),
    decreases cs.len() - i,
{
    if i < cs.len() {
        lemma_count_all_prefix(cs, i + 1);
        assert(cs.take(i + 1).drop_last() =~= cs.take(i));
    } else {
        assert(cs.take(i) =~= cs);
    }
}

proof fn lemma_height_all_member(cs: Seq<Element>, i: int)
    requires
        0 <= i < cs.len(),
    ensures
        height(cs[i]) <= height_all(cs),
    decreases cs.len(),
{
    if i < cs.len() - 1 {
        lemma_height_all_member(cs.drop_last(), i);
    }
}

/// Appends the records of the tree under `e`, numbered from `next_id` on.
fn flatten_into(e: &Element, parent: Option<i64>, depth: i32, next_id: &mut i64, out: &mut Vec<NodeData>)
    requires
        *old(next_id) + count(*e) <= i64::MAX,
        depth + height(*e) <= i32::MAX + 1,
    ensures
        *final(next_id) == *old(next_id) + count(*e),
        nodes_view(final(out)@) == nodes_view(old(out)@) + preorder(
            *e,
            *old(next_id) as int,
            id_view(parent),
            depth as int,
        ),
    decreases *e,
{
    let ghost start = nodes_view(out@);
    let ghost cs = e.children@;
    let id = *next_id;
    *next_id = id + 1;
    let node = NodeData {
        id,
        tag_name: e.tag_name.clone(),
        text_content: merge_text(&e.texts),
        attributes: copy_pairs(&e.attributes),
        parent_id: parent,
        depth,
    };
    out.push(node);
    let ghost rec = record(*e, id as int, id_view(parent), depth as int);
    proof {
        assert(node@ == rec);
        assert(nodes_view(out@) =~= start + seq![rec]);
        assert(cs.take(0) =~= Seq::<Element>::empty());
    }
    let mut i: usize = 0;
    while i < e.children.len()
        invariant
            i <= e.children.len(),
            cs == e.children@,
            count(*e) == 1 + count_all(cs),
            id + count(*e) <= i64::MAX,
            depth + height(*e) <= i32::MAX + 1,
            height(*e) == 1 + height_all(cs),
            *next_id == id + 1 + count_all(cs.take(i as int)),
            nodes_view(out@) == start + seq![rec] + preorder_all(
                cs.take(i as int),
                id + 1,
                Some(id as int),
                depth + 1,
            ),
        decreases e.children.len() - i,
    {
        proof {
            lemma_count_all_prefix(cs, i + 1);
            assert(cs.take(i + 1).drop_last() =~= cs.take(i as int));
            assert(cs.take(i + 1).last() == cs[i as int]);
            lemma_height_all_member(cs, i as int);
        }
        flatten_into(&e.children[i], Some(id), depth + 1, next_id, out);
        proof {
            assert(nodes_view(out@) =~= start + seq![rec] + preorder_all(
                cs.take(i + 1),
                id + 1,
                Some(id as int),
                depth + 1,
            ));
        }
        i = i + 1;
    }
    proof {
        assert(cs.take(cs.len() as int) =~= cs);
        assert(nodes_view(out@) =~= start + preorder(*e, id as int, id_view(parent), depth as int));
    }
}

/// The records of a document whose root element is `root`, in pre-order:
/// numbered from 1, the root at depth 0 without a parent, each other
/// element one level below its parent.
pub fn flatten_document(root: &Element) -> (r: Vec<NodeData>)
    requires
        count(*root) < i64::MAX,
        height(*root) <= i32::MAX,
    ensures
        nodes_view(r@) == preorder(*root, 1, None, 0),
{
    let mut out: Vec<NodeData> = Vec::new();
    let mut next_id: i64 = 1;
    flatten_into(root, None, 0, &mut next_id, &mut out);
    proof {
        assert(nodes_view(Seq::<NodeData>::empty()) =~= Seq::<NodeV>::empty());
        assert(Seq::<NodeV>::empty() + preorder(*root, 1, None, 0) =~= preorder(*root, 1, None, 0));
    }
    out
}

/// Record `k` hangs from an earlier record, one level above it.
pub open spec fn hangs_below(s: Seq<NodeV>, k: int) -> bool {
    exists|j: int|
        0 <= j < k && s[k].parent_id == Some(#[trigger] s[j].id) && s[j].depth + 1 == s[k].depth
}

pub open spec fn numbered(s: Seq<NodeV>, id: int) -> bool {
    forall|k: int| 0 <= k < s.len() ==> #[trigger] s[k].id == id + k
}

/// Each record hangs from `parent` at `depth`, or from an earlier record.
pub open spec fn linked(s: Seq<NodeV>, parent: Option<int>, depth: int) -> bool {
    forall|k: int|
        0 <= k < s.len() ==> (#[trigger] s[k].parent_id == parent && s[k].depth == depth)
            || hangs_below(s, k)
}

proof fn lemma_preorder_linked(e: Element, id: int, parent: Option<int>, depth: int)
    ensures
        preorder(e, id, parent, depth).len() == count(e),
        preorder(e, id, parent, depth)[0] == record(e, id, parent, depth),
        numbered(preorder(e, id, parent, depth), id),
        forall|k: int|
            0 < k < preorder(e, id, parent, depth).len() ==> #[trigger] hangs_below(
                preorder(e, id, parent, depth),
                k,
            ),
    decreases e,
{
    let cs = e.children@;
    let a = preorder_all(cs, id + 1, Some(id), depth + 1);
    lemma_preorder_all_linked(cs, id + 1, Some(id), depth + 1);
    let r = preorder(e, id, parent, depth);
    let rec = record(e, id, parent, depth);
    assert(r =~= seq![rec] + a);
    assert forall|k: int| 0 < k < r.len() implies #[trigger] hangs_below(r, k) by {
        let m = k - 1;
        assert(r[k] == a[m]);
        if a[m].parent_id == Some(id) && a[m].depth == depth + 1 {
            assert(r[0].id == id);
        } else {
            assert(hangs_below(a, m));
            let j = choose|j: int|
                0 <= j < m && a[m].parent_id == Some(#[trigger] a[j].id) && a[j].depth + 1
                    == a[m].depth;
            assert(r[j + 1] == a[j]);
        }
    }
    assert forall|k: int| 0 <= k < r.len() implies #[trigger] r[k].id == id + k by {
        if k > 0 {
            assert(r[k] == a[k - 1]);
        }
    }
}

proof fn lemma_preorder_all_linked(cs: Seq<Element>, id: int, parent: Option<int>, depth: int)
    ensures
        preorder_all(cs, id, parent, depth).len() == count_all(cs),
        numbered(preorder_all(cs, id, parent, depth), id),
        linked(preorder_all(cs, id, parent, depth), parent, depth),
    decreases cs,
{
    if cs.len() > 0 {
        let front = cs.drop_last();
        let b = preorder_all(front, id, parent, depth);
        let c = preorder(cs.last(), id + count_all(front), parent, depth);
        lemma_preorder_all_linked(front, id, parent, depth);
        lemma_preorder_linked(cs.last(), id + count_all(front), parent, depth);
        let r = preorder_all(cs, id, parent, depth);
        assert(r =~= b + c);
        assert forall|k: int| 0 <= k < r.len() implies (#[trigger] r[k].parent_id == parent
            && r[k].depth == depth) || hangs_below(r, k) by {
            if k < b.len() {
                assert(r[k] == b[k]);
                if !(b[k].parent_id == parent && b[k].depth == depth) {
                    assert(hangs_below(b, k));
                    let j = choose|j: int|
                        0 <= j < k && b[k].parent_id == Some(#[trigger] b[j].id) && b[j].depth + 1
                            == b[k].depth;
                    assert(r[j] == b[j]);
                }
            } else {
                let m = k - b.len();
                assert(r[k] == c[m]);
                if m > 0 {
                    assert(hangs_below(c, m));
                    let j = choose|j: int|
                        0 <= j < m && c[m].parent_id == Some(#[trigger] c[j].id) && c[j].depth + 1
                            == c[m].depth;
                    assert(r[j + b.len()] == c[j]);
                }
            }
        }
        assert forall|k: int| 0 <= k < r.len() implies #[trigger] r[k].id == id + k by {
            if k < b.len() {
                assert(r[k] == b[k]);
            } else {
                assert(r[k] == c[k - b.len()]);
            }
        }
    }
}

/// The records of a flattened document are numbered 1, 2, 3, ... in order;
/// the first is the root, at depth 0 without a parent; every other record's
/// parent is an earlier record, one level above it.
pub proof fn flattened_tree_is_rooted(root: Element)
    ensures
        preorder(root, 1, None, 0).len() == count(root),
        preorder(root, 1, None, 0)[0].parent_id is None,
        preorder(root, 1, None, 0)[0].depth == 0,
        numbered(preorder(root, 1, None, 0), 1),
        forall|k: int|
            0 < k < preorder(root, 1, None, 0).len() ==> #[trigger] hangs_below(
                preorder(root, 1, None, 0),
                k,
            ),
{
    lemma_preorder_linked(root, 1, None, 0);
}

} // verus!
