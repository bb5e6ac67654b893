//! The component table of a file: one entry per declared component or
//! primitive, with its ports, its cells and its groups, built from the
//! file's syntax tree.

use crate::search::{first_from, select};
use crate::syntax::{
    child_kind, first_child, has_child, is_container, member_names, name_node, subtree_end,
    SyntaxNode, SyntaxTree,
};
use crate::text::strings;
use vstd::prelude::*;

verus! {

/// The views of a sequence of entries keyed by strings.
pub open spec fn entries<V: View>(v: Seq<(String, V)>) -> Seq<(Seq<char>, V::V)> {
    v.map_values(|e: (String, V)| (e.0@, e.1@))
}

/// The position of the entry with key `k`, or the length if there is none.
pub open spec fn key_index<V>(s: Seq<(Seq<char>, V)>, k: Seq<char>) -> int {
    first_from(0, s.len() as int, key_is(s, k))
}

/// Entry `i` has key `k`.
pub open spec fn key_is<V>(s: Seq<(Seq<char>, V)>, k: Seq<char>) -> spec_fn(int) -> bool {
    |i: int| s[i].0 == k
}

/// Sets the value of key `k`: an existing entry keeps its place and takes
/// the new value; a new key goes at the end.
pub open spec fn upsert<V>(s: Seq<(Seq<char>, V)>, k: Seq<char>, v: V) -> Seq<(Seq<char>, V)> {
    let i = key_index(s, k);
    if i < s.len() {
        s.update(i, (k, v))
    } else {
        s.push((k, v))
    }
}

/// The entries that result from setting each pair in turn, so that a later
/// pair wins over an earlier one with the same key.
pub open spec fn upsert_all<V>(pairs: Seq<(Seq<char>, V)>) -> Seq<(Seq<char>, V)>
    decreases pairs.len(),
{
    if pairs.len() == 0 {
        Seq::empty()
    } else {
        upsert(upsert_all(pairs.drop_last()), pairs.last().0, pairs.last().1)
    }
}

/// No two entries share a key.
pub open spec fn keys_unique<V>(s: Seq<(Seq<char>, V)>) -> bool {
    forall|i: int, j: int| 0 <= i < j < s.len() ==> s[i].0 != s[j].0
}

/// What the table records of one component.
pub struct InfoView {
    pub inputs: Seq<Seq<char>>,
    pub outputs: Seq<Seq<char>>,
    pub cells: Seq<(Seq<char>, Seq<char>)>,
    pub groups: Seq<Seq<char>>,
}

/// What the table records of one component: its input and output port
/// names in order, its cells (each cell's name with the name of the
/// component it instantiates, one entry per name), and its group names.
#[derive(Clone, Debug, PartialEq, Eq)]
pub struct ComponentInfo {
    pub inputs: Vec<String>,
    pub outputs: Vec<String>,
    pub cells: Vec<(String, String)>,
    pub groups: Vec<String>,
}

impl View for ComponentInfo {
    type V = InfoView;

    open spec fn view(&self) -> InfoView {
        InfoView {
            inputs: strings(self.inputs@),
            outputs: strings(self.outputs@),
            cells: entries(self.cells@),
            groups: strings(self.groups@),
        }
    }
}

/// The port names of a port list: the name of each `io_port` below it.
pub open spec fn port_names(ns: Seq<SyntaxNode>, list: int) -> Seq<Seq<char>> {
    member_names(ns, list, "io_port"@)
}

/// The input port list of a signature: its first `io_port_list` child.
pub open spec fn input_list(ns: Seq<SyntaxNode>, sig: int) -> int {
    first_child(ns, sig, "io_port_list"@)
}

/// The output port list of a signature: its second `io_port_list` child.
pub open spec fn output_list(ns: Seq<SyntaxNode>, sig: int) -> int {
    first_from(input_list(ns, sig) + 1, subtree_end(ns, sig), child_kind(ns, sig, "io_port_list"@))
}

pub open spec fn inputs_of(ns: Seq<SyntaxNode>, c: int) -> Seq<Seq<char>> {
    let sig = first_child(ns, c, "signature"@);
    if sig < subtree_end(ns, c) && input_list(ns, sig) < subtree_end(ns, sig) {
        port_names(ns, input_list(ns, sig))
    } else {
        Seq::empty()
    }
}

pub open spec fn outputs_of(ns: Seq<SyntaxNode>, c: int) -> Seq<Seq<char>> {
    let sig = first_child(ns, c, "signature"@);
    if sig < subtree_end(ns, c) && input_list(ns, sig) < subtree_end(ns, sig) && output_list(
        ns,
        sig,
    ) < subtree_end(ns, sig) {
        port_names(ns, output_list(ns, sig))
    } else {
        Seq::empty()
    }
}

/// The instantiation of a cell assignment: its first `instantiation` child.
pub open spec fn instantiation_of(ns: Seq<SyntaxNode>, k: int) -> int {
    first_child(ns, k, "instantiation"@)
}

/// Node `k` is a complete cell assignment: `name = Comp(...)`.
pub open spec fn is_cell(ns: Seq<SyntaxNode>) -> spec_fn(int) -> bool {
    |k: int|
        ns[k].kind@ == "cell_assignment"@ && has_child(ns, k, "ident"@) && has_child(
            ns,
            k,
            "instantiation"@,
        ) && has_child(ns, instantiation_of(ns, k), "ident"@)
}

/// The cell assignments below `c`, each as its cell name with the name of
/// the component it instantiates, in document order.
pub open spec fn cell_pairs(ns: Seq<SyntaxNode>, c: int) -> Seq<(Seq<char>, Seq<char>)> {
    select(c + 1, subtree_end(ns, c), is_cell(ns)).map_values(
        |k: int|
            (ns[name_node(ns, k)].text@, ns[name_node(ns, instantiation_of(ns, k))].text@),
    )
}

/// The table entry of the component or primitive at node `c`.
pub open spec fn info_of(ns: Seq<SyntaxNode>, c: int) -> InfoView {
    InfoView {
        inputs: inputs_of(ns, c),
        outputs: outputs_of(ns, c),
        cells: upsert_all(cell_pairs(ns, c)),
        groups: member_names(ns, c, "group"@),
    }
}

/// Node `k` is a named component or primitive.
pub open spec fn is_named_container(ns: Seq<SyntaxNode>) -> spec_fn(int) -> bool {
    |k: int| is_container(ns[k].kind@) && has_child(ns, k, "ident"@)
}

/// The declared components and primitives of a tree, in document order.
pub open spec fn containers(ns: Seq<SyntaxNode>) -> Seq<int> {
    select(0, ns.len() as int, is_named_container(ns))
}

/// The component table of a tree: each named component or primitive with
/// its entry; where two share a name, the later one's entry stands, in the
/// place of the first.
pub open spec fn table_of(ns: Seq<SyntaxNode>) -> Seq<(Seq<char>, InfoView)> {
    upsert_all(containers(ns).map_values(table_entry(ns)))
}

/// The name and entry of the component or primitive at node `c`.
pub open spec fn table_entry(ns: Seq<SyntaxNode>) -> spec_fn(int) -> (Seq<char>, InfoView) {
    |c: int| (ns[name_node(ns, c)].text@, info_of(ns, c))
}

/// The input port names of the component at `c`.
pub fn inputs_from(tree: &SyntaxTree, c: usize) -> (r: Vec<String>)
    requires
        tree.wf(),
        c < tree@.len(),
    ensures
        strings(r@) == inputs_of(tree@, c as int),
{
    let ghost ns = tree@;
    let mut r: Vec<String> = Vec::new();
    if let Some(sig) = tree.first_child_of_kind(c, "signature") {
        if let Some(l) = tree.first_child_of_kind(sig, "io_port_list") {
            r = tree.member_names(l, "io_port");
            return r;
        }
    }
    assert(strings(r@) =~= Seq::<Seq<char>>::empty());
    r
}

/// The output port names of the component at `c`.
pub fn outputs_from(tree: &SyntaxTree, c: usize) -> (r: Vec<String>)
    requires
        tree.wf(),
        c < tree@.len(),
    ensures
        strings(r@) == outputs_of(tree@, c as int),
{
    let ghost ns = tree@;
    let mut r: Vec<String> = Vec::new();
    if let Some(sig) = tree.first_child_of_kind(c, "signature") {
        if let Some(l) = tree.first_child_of_kind(sig, "io_port_list") {
            assert(l as int == input_list(ns, sig as int));
            let _n = tree.len();
            if let Some(l2) = tree.child_of_kind_from(sig, l + 1, "io_port_list") {
                assert(l2 as int == output_list(ns, sig as int));
                r = tree.member_names(l2, "io_port");
                return r;
            }
        }
    }
    assert(strings(r@) =~= Seq::<Seq<char>>::empty());
    r
}

/// The complete cell assignments below `c`, in document order.
fn cell_pairs_of(tree: &SyntaxTree, c: usize) -> (r: Vec<(String, String)>)
    requires
        tree.wf(),
        c < tree@.len(),
    ensures
        entries(r@) == cell_pairs(tree@, c as int),
{
    let ghost ns = tree@;
    let ghost g = is_cell(ns);
    let ghost pair = |k: int|
        (ns[name_node(ns, k)].text@, ns[name_node(ns, instantiation_of(ns, k))].text@);
    let e = tree.subtree_end(c);
    let mut r: Vec<(String, String)> = Vec::new();
    let mut k = c + 1;
    while k < e
        invariant
            c < k <= e,
            e <= ns.len(),
            ns == tree@,
            tree.wf(),
            g == is_cell(ns),
            pair == (|k: int|
                (ns[name_node(ns, k)].text@, ns[name_node(ns, instantiation_of(ns, k))].text@)),
            e == subtree_end(ns, c as int),
            entries(r@) == select(c + 1, k as int, g).map_values(pair),
        decreases e - k,
    {
        let ghost before = r@;
        let mut taken = false;
        if tree.kind_is(k, "cell_assignment") {
            if let Some(n) = tree.first_child_of_kind(k, "ident") {
                if let Some(ins) = tree.first_child_of_kind(k, "instantiation") {
                    proof {
                        crate::syntax::lemma_subtree_end(ns, k as int);
                    }
                    if let Some(m) = tree.first_child_of_kind(ins, "ident") {
                        proof {
                            crate::syntax::lemma_subtree_end(ns, ins as int);
                        }
                        let name = tree.node(n).text.clone();
                        let comp = tree.node(m).text.clone();
                        r.push((name, comp));
                        taken = true;
                        proof {
                            assert(g(k as int));
                            assert(entries(r@) =~= entries(before).push(pair(k as int)));
                            assert(select(c + 1, k + 1, g) == select(c + 1, k as int, g).push(
                                k as int,
                            ));
                            assert(select(c + 1, k + 1, g).map_values(pair) =~= select(
                                c + 1,
                                k as int,
                                g,
                            ).map_values(pair).push(pair(k as int)));
                        }
                    }
                }
            }
        }
        if !taken {
            assert(!g(k as int));
        }
        k += 1;
    }
    r
}

/// The entry of the component or primitive at `c`.
pub fn component_info(tree: &SyntaxTree, c: usize) -> (r: ComponentInfo)
    requires
        tree.wf(),
        c < tree@.len(),
    ensures
        r@ == info_of(tree@, c as int),
{
    let inputs = inputs_from(tree, c);
    let outputs = outputs_from(tree, c);
    let pairs = cell_pairs_of(tree, c);
    let ghost ps = entries(pairs@);
    let mut cells: Vec<(String, String)> = Vec::new();
    let mut i: usize = 0;
    while i < pairs.len()
        invariant
            i <= pairs@.len(),
            ps == entries(pairs@),
            entries(cells@) == upsert_all(ps.take(i as int)),
        decreases pairs@.len() - i,
    {
        let name = pairs[i].0.clone();
        let comp = pairs[i].1.clone();
        upsert_entry(&mut cells, name, comp);
        proof {
            assert(ps.take(i + 1).drop_last() =~= ps.take(i as int));
        }
        i += 1;
    }
    assert(ps.take(i as int) =~= ps);
    let groups = tree.member_names(c, "group");
    ComponentInfo { inputs, outputs, cells, groups }
}

/// The component table of a tree; see `table_of`.
pub fn component_table(tree: &SyntaxTree) -> (r: Vec<(String, ComponentInfo)>)
    requires
        tree.wf(),
    ensures
        entries(r@) == table_of(tree@),
{
    let ghost ns = tree@;
    let ghost g = is_named_container(ns);
    let ghost entry = table_entry(ns);
    let n = tree.len();
    let mut r: Vec<(String, ComponentInfo)> = Vec::new();
    let mut k: usize = 0;
    while k < n
        invariant
            k <= n,
            n == ns.len(),
            ns == tree@,
            tree.wf(),
            g == is_named_container(ns),
            entry == table_entry(ns),
            entries(r@) == upsert_all(select(0, k as int, g).map_values(entry)),
        decreases n - k,
    {
        let mut taken = false;
        if tree.is_container(k) {
            if let Some(m) = tree.first_child_of_kind(k, "ident") {
                proof {
                    crate::syntax::lemma_subtree_end(ns, k as int);
                }
                let name = tree.node(m).text.clone();
                let info = component_info(tree, k);
                upsert_entry(&mut r, name, info);
                taken = true;
                proof {
                    assert(g(k as int));
                    let prev = select(0, k as int, g).map_values(entry);
                    assert(select(0, k + 1, g) == select(0, k as int, g).push(k as int));
                    assert(select(0, k + 1, g).map_values(entry) =~= prev.push(entry(k as int)));
                    assert(prev.push(entry(k as int)).drop_last() =~= prev);
                }
            }
        }
        if !taken {
            assert(!g(k as int));
        }
        k += 1;
    }
    r
}

/// Sets the value of key `k` in `v`; see `upsert`.
pub fn upsert_entry<V: View>(v: &mut Vec<(String, V)>, k: String, val: V)
    ensures
        entries(final(v)@) == upsert(entries(old(v)@), k@, val@),
{
    let ghost s = entries(v@);
    let ghost f = key_is(s, k@);
    let mut i: usize = 0;
    while i < v.len()
        invariant
            i <= v@.len(),
            s == entries(v@),
            s == entries(old(v)@),
            f == key_is(s, k@),
            forall|m: int| 0 <= m < i ==> !#[trigger] f(m),
        decreases v@.len() - i,
    {
        if v[i].0 == k {
            proof {
                assert(f(i as int));
                crate::search::lemma_first_from_skip(0, i as int, s.len() as int, f);
                assert(s.len() == v@.len());
                assert(key_index(s, k@) == i as int);
            }
            v.set(i, (k, val));
            proof {
                assert(entries(v@) =~= s.update(i as int, (k@, val@)));
            }
            return;
        }
        assert(!f(i as int));
        i += 1;
    }
    proof {
        crate::search::lemma_first_from_skip(0, i as int, s.len() as int, f);
    }
    v.push((k, val));
    proof {
        assert(entries(v@) =~= s.push((k@, val@)));
    }
}

} // verus!
