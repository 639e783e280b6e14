//! The document tree: an append-only arena of heading nodes with parent
//! links, assigned pre-order indices as the parser creates them, plus the
//! query engine — fuzzy path lookup, breadcrumbs and per-language code
//! assembly over the root-to-node chain.

use vstd::prelude::*;

use crate::strutil::contains_substring;
use crate::strutil::is_substring;
use vstd::slice::slice_index_get;

verus! {

/// One fenced source region, exactly as written.
#[derive(Debug)]
pub struct CodeBlock {
    pub interpreter: String,
    pub code: String,
}

/// The assembled script for one language: the code fragments collected along
/// the root-to-node chain, with the node's breadcrumb.
#[derive(Debug)]
pub struct RunnableCode {
    pub interpreter: String,
    pub fullname: Vec<String>,
    pub code: Vec<String>,
}

pub type DocNodeId = usize;

/// One heading (or the synthetic document root) with the code fenced
/// directly under it.
#[derive(Debug)]
pub struct DocNode {
    name: String,
    level: i32,
    code_blocks: Vec<CodeBlock>,
}

/// The arena: nodes in pre-order, and for each node the index of its parent.
#[derive(Debug)]
pub struct CodeDoc {
    nodes: Vec<DocNode>,
    parent: Vec<DocNodeId>,
}

pub const DOC_NODE_ROOT_ID: DocNodeId = 0;

/// Mathematical model of a code block.
#[verifier::ext_equal]
pub ghost struct SpecCodeBlock {
    pub interpreter: Seq<char>,
    pub code: Seq<char>,
}

/// Mathematical model of a node.
#[verifier::ext_equal]
pub ghost struct SpecDocNode {
    pub name: Seq<char>,
    pub level: int,
    pub code_blocks: Seq<SpecCodeBlock>,
}

/// Mathematical model of the tree: parallel sequences of nodes and parent
/// indices.
#[verifier::ext_equal]
pub ghost struct SpecDoc {
    pub nodes: Seq<SpecDocNode>,
    pub parent: Seq<int>,
}

impl View for CodeBlock {
    type V = SpecCodeBlock;

    open spec fn view(&self) -> SpecCodeBlock {
        SpecCodeBlock { interpreter: self.interpreter@, code: self.code@ }
    }
}

impl DeepView for CodeBlock {
    type V = SpecCodeBlock;

    open spec fn deep_view(&self) -> SpecCodeBlock {
        self.view()
    }
}

impl View for DocNode {
    type V = SpecDocNode;

    closed spec fn view(&self) -> SpecDocNode {
        SpecDocNode {
            name: self.name@,
            level: self.level as int,
            code_blocks: self.code_blocks.deep_view(),
        }
    }
}

impl DeepView for DocNode {
    type V = SpecDocNode;

    closed spec fn deep_view(&self) -> SpecDocNode {
        self.view()
    }
}

impl View for RunnableCode {
    type V = SpecRunnableCode;

    open spec fn view(&self) -> SpecRunnableCode {
        SpecRunnableCode {
            interpreter: self.interpreter@,
            fullname: self.fullname.deep_view(),
            code: self.code.deep_view(),
        }
    }
}

impl DeepView for RunnableCode {
    type V = SpecRunnableCode;

    open spec fn deep_view(&self) -> SpecRunnableCode {
        self.view()
    }
}

/// Mathematical model of one assembled script.
#[verifier::ext_equal]
pub ghost struct SpecRunnableCode {
    pub interpreter: Seq<char>,
    pub fullname: Seq<Seq<char>>,
    pub code: Seq<Seq<char>>,
}

impl View for CodeDoc {
    type V = SpecDoc;

    closed spec fn view(&self) -> SpecDoc {
        SpecDoc {
            nodes: self.nodes.deep_view(),
            parent: self.parent@.map_values(|p: DocNodeId| p as int),
        }
    }
}

/// Node indices as mathematical integers.
pub open spec fn ids(v: Seq<usize>) -> Seq<int> {
    v.map_values(|u: usize| u as int)
}

/// The distinct interpreter tags of `blocks`, in first-appearance order.
pub open spec fn distinct_tags(blocks: Seq<SpecCodeBlock>) -> Seq<Seq<char>>
    decreases blocks.len(),
{
    if blocks.len() == 0 {
        Seq::empty()
    } else {
        let pre = distinct_tags(blocks.drop_last());
        if pre.contains(blocks.last().interpreter) {
            pre
        } else {
            pre.push(blocks.last().interpreter)
        }
    }
}

/// The bodies of the `lang`-tagged blocks among `blocks`, in source order.
pub open spec fn blocks_code_for(blocks: Seq<SpecCodeBlock>, lang: Seq<char>) -> Seq<Seq<char>>
    decreases blocks.len(),
{
    if blocks.len() == 0 {
        Seq::empty()
    } else {
        blocks_code_for(blocks.drop_last(), lang) + if blocks.last().interpreter == lang {
            seq![blocks.last().code]
        } else {
            Seq::empty()
        }
    }
}

impl SpecDoc {
    /// Well-formedness: the sentinel root sits at index 0 with level -1 and
    /// points at itself; every other node points at an earlier node
    /// (invariant A) of strictly smaller level (invariant B).
    pub open spec fn wf(self) -> bool {
        &&& self.nodes.len() == self.parent.len()
        &&& self.nodes.len() >= 1
        &&& self.parent[0] == 0
        &&& self.nodes[0].level == -1
        &&& forall|i: int| 1 <= i < self.nodes.len() ==> 0 <= #[trigger] self.parent[i] < i
        &&& forall|i: int|
            1 <= i < self.nodes.len() ==> self.nodes[#[trigger] self.parent[i]].level
                < self.nodes[i].level
    }

    /// The arena with only the sentinel root.
    pub open spec fn root_only() -> SpecDoc {
        SpecDoc {
            nodes: seq![
                SpecDocNode { name: Seq::empty(), level: -1, code_blocks: Seq::empty() },
            ],
            parent: seq![0],
        }
    }

    /// The arena extended by one node under `parent`.
    pub open spec fn push_node(self, parent: int, node: SpecDocNode) -> SpecDoc {
        SpecDoc { nodes: self.nodes.push(node), parent: self.parent.push(parent) }
    }

    /// Walking the parent chain up from `n` meets `anc` before the root.
    /// (A node reaches itself.)
    pub open spec fn reaches(self, anc: int, n: int) -> bool
        decreases n,
    {
        if n == anc {
            true
        } else if n <= 0 {
            false
        } else if 0 <= self.parent[n] < n {
            self.reaches(anc, self.parent[n])
        } else {
            false
        }
    }

    /// The parent chain from `p` descends exactly one level per step, down
    /// to the root sentinel's -1: the shape of the open cursor chain while
    /// the parser builds the tree.
    pub open spec fn chain_consec(self, p: int) -> bool
        decreases p,
    {
        if p <= 0 {
            true
        } else if 0 <= self.parent[p] < p {
            self.nodes[self.parent[p]].level == self.nodes[p].level - 1 && self.chain_consec(
                self.parent[p],
            )
        } else {
            false
        }
    }

    /// `k` parent steps up from `p`.
    pub open spec fn ascend(self, p: int, k: int) -> int
        decreases k,
    {
        if k <= 0 {
            p
        } else {
            self.ascend(self.parent[p], k - 1)
        }
    }

    /// The number of parent steps from `n` up to the root sentinel.
    pub open spec fn steps_to_root(self, n: int) -> int
        decreases n,
    {
        if n <= 0 {
            0
        } else if 0 <= self.parent[n] < n {
            1 + self.steps_to_root(self.parent[n])
        } else {
            1
        }
    }

    /// The ancestors of `n` that lie in `[1, c)`, in increasing index order.
    pub open spec fn ancestors_upto(self, n: int, c: int) -> Seq<int>
        decreases c,
    {
        if c <= 1 {
            Seq::empty()
        } else {
            self.ancestors_upto(n, c - 1) + if self.reaches(c - 1, n) && c - 1 != n {
                seq![c - 1]
            } else {
                Seq::empty()
            }
        }
    }

    /// All proper ancestors of `n` except the root, in increasing index
    /// order: by pre-order numbering this is the root-to-parent chain.
    pub open spec fn ancestors_spec(self, n: int) -> Seq<int> {
        self.ancestors_upto(n, n)
    }

    /// The proper descendants of `n` that lie in `(n, c)`, in increasing
    /// index order.
    pub open spec fn descendants_upto(self, n: int, c: int) -> Seq<int>
        decreases c - n,
    {
        if c <= n + 1 {
            Seq::empty()
        } else {
            self.descendants_upto(n, c - 1) + if self.reaches(n, c - 1) {
                seq![c - 1]
            } else {
                Seq::empty()
            }
        }
    }

    /// All proper descendants of `n`, in increasing index order.
    pub open spec fn descendants_spec(self, n: int) -> Seq<int> {
        self.descendants_upto(n, self.nodes.len() as int)
    }

    /// The breadcrumb of `n`: the names from the top-level ancestor down to
    /// and including `n` (the root sentinel excluded).
    pub open spec fn fullname_spec(self, n: int) -> Seq<Seq<char>> {
        self.ancestors_spec(n).map_values(|i: int| self.nodes[i].name).push(self.nodes[n].name)
    }

    /// The root-to-node chain of `n`: its ancestors in document order, then
    /// `n` itself.
    pub open spec fn chain_spec(self, n: int) -> Seq<int> {
        self.ancestors_spec(n).push(n)
    }

    /// The `lang`-tagged code bodies of the nodes `idxs`, node by node, each
    /// node's blocks in source order.
    pub open spec fn codes_along(self, idxs: Seq<int>, lang: Seq<char>) -> Seq<Seq<char>>
        decreases idxs.len(),
    {
        if idxs.len() == 0 {
            Seq::empty()
        } else {
            self.codes_along(idxs.drop_last(), lang) + blocks_code_for(
                self.nodes[idxs.last()].code_blocks,
                lang,
            )
        }
    }

    /// Code assembly for `n`: one record per distinct interpreter tag of
    /// `n`'s own blocks (first-appearance order), holding the tagged code
    /// collected along the root-to-node chain, ancestor-first.
    pub open spec fn runnable_spec(self, n: int) -> Seq<SpecRunnableCode> {
        distinct_tags(self.nodes[n].code_blocks).map_values(
            |l: Seq<char>|
                SpecRunnableCode {
                    interpreter: l,
                    fullname: self.fullname_spec(n),
                    code: self.codes_along(self.chain_spec(n), l),
                },
        )
    }

    /// Fuzzy path lookup from `start` with the keys `query[qi..]` still to
    /// match: the empty query names `start` itself (but never the root);
    /// otherwise the direct children of `start` are scanned in document
    /// order by `lookup_scan`.
    pub open spec fn lookup_spec(self, start: int, query: Seq<Seq<char>>, qi: int) -> Seq<int>
        decreases self.nodes.len() - start, self.nodes.len() - start,
    {
        if qi >= query.len() {
            if start == 0 {
                Seq::empty()
            } else {
                seq![start]
            }
        } else if 0 <= start < self.nodes.len() {
            self.lookup_scan(start, query, qi, start + 1)
        } else {
            Seq::empty()
        }
    }

    /// The children scan behind `lookup_spec`, from candidate index `c` on.
    /// A child whose name contains the first pending key contributes its
    /// consume-branch results before its defer-branch results; any other
    /// child only defers.
    pub open spec fn lookup_scan(self, start: int, query: Seq<Seq<char>>, qi: int, c: int) -> Seq<
        int,
    >
        decreases self.nodes.len() - start, self.nodes.len() - c,
    {
        if c <= start || c >= self.nodes.len() || qi >= query.len() {
            Seq::empty()
        } else {
            (if self.parent[c] == start {
                if is_substring(self.nodes[c].name, query[qi]) {
                    self.lookup_spec(c, query, qi + 1) + self.lookup_spec(c, query, qi)
                } else {
                    self.lookup_spec(c, query, qi)
                }
            } else {
                Seq::empty()
            }) + self.lookup_scan(start, query, qi, c + 1)
        }
    }
}

/// The nesting law: in a well-formed tree every non-root node sits under a
/// parent of strictly smaller level, the parent chain from any node reaches
/// the root sentinel, and it does so within `level + 1` steps.
pub proof fn lemma_nesting_invariant(d: SpecDoc, n: int)
    requires
        d.wf(),
        1 <= n < d.nodes.len(),
    ensures
        d.nodes[d.parent[n]].level < d.nodes[n].level,
        d.reaches(0, n),
        d.steps_to_root(n) <= d.nodes[n].level + 1,
    decreases n,
{
    if d.parent[n] != 0 {
        lemma_nesting_invariant(d, d.parent[n]);
        assert(d.reaches(0, n) == d.reaches(0, d.parent[n]));
        assert(d.steps_to_root(n) == 1 + d.steps_to_root(d.parent[n]));
    } else {
        assert(d.reaches(0, 0));
        assert(d.steps_to_root(0) == 0);
        assert(d.nodes[n].level > d.nodes[0].level);
    }
}

/// Pushing a node leaves the consecutive-levels shape of any existing
/// chain intact.
pub proof fn lemma_chain_consec_push(d: SpecDoc, p: int, q: int, node: SpecDocNode)
    requires
        0 <= p < d.nodes.len(),
        d.nodes.len() == d.parent.len(),
        d.chain_consec(p),
    ensures
        d.push_node(q, node).chain_consec(p),
    decreases p,
{
    if p > 0 {
        lemma_chain_consec_push(d, d.parent[p], q, node);
    }
}

/// Ascending `k` steps along a consecutive chain from `p` stays inside the
/// arena, lowers the level by exactly `k`, and keeps the chain shape.
pub proof fn lemma_ascend_props(d: SpecDoc, p: int, k: int)
    requires
        d.wf(),
        0 <= p < d.nodes.len(),
        d.chain_consec(p),
        0 <= k <= d.nodes[p].level + 1,
    ensures
        0 <= d.ascend(p, k) < d.nodes.len(),
        d.nodes[d.ascend(p, k)].level == d.nodes[p].level - k,
        d.chain_consec(d.ascend(p, k)),
    decreases k,
{
    if k > 0 {
        assert(p != 0);
        lemma_ascend_props(d, d.parent[p], k - 1);
    }
}

/// Ascending one step further means taking the parent of where `k` steps
/// arrive.
pub proof fn lemma_ascend_step(d: SpecDoc, p: int, k: int)
    requires
        k >= 0,
    ensures
        d.ascend(p, k + 1) == d.parent[d.ascend(p, k)],
    decreases k,
{
    if k == 0 {
        assert(d.ascend(p, 1) == d.ascend(d.parent[p], 0));
    } else {
        lemma_ascend_step(d, d.parent[p], k - 1);
        assert(d.ascend(p, k + 1) == d.ascend(d.parent[p], k));
        assert(d.ascend(p, k) == d.ascend(d.parent[p], k - 1));
    }
}

/// Lookup with the empty query: the start node itself is the only match,
/// unless it is the root sentinel, which is never a result.
pub proof fn lemma_lookup_empty_query(d: SpecDoc, start: int)
    requires
        d.wf(),
        0 <= start < d.nodes.len(),
    ensures
        start == 0 ==> d.lookup_spec(start, Seq::empty(), 0) == Seq::<int>::empty(),
        start != 0 ==> d.lookup_spec(start, Seq::empty(), 0) == seq![start],
{
}

impl DocNode {
    /// The heading title.
    pub fn name(&self) -> (r: &str)
        ensures
            r@ == self@.name,
    {
        &self.name
    }

    /// The heading depth; the synthetic root uses the sentinel -1.
    pub fn level(&self) -> (r: i32)
        ensures
            r as int == self@.level,
    {
        self.level
    }
}

impl CodeDoc {
    /// A tree holding only the synthetic root.
    pub fn new() -> (doc: CodeDoc)
        ensures
            doc@ == SpecDoc::root_only(),
            doc@.wf(),
    {
        let mut doc = CodeDoc { nodes: Vec::new(), parent: Vec::new() };
        doc.nodes.push(DocNode { level: -1, name: String::new(), code_blocks: Vec::new() });
        doc.parent.push(DOC_NODE_ROOT_ID);
        proof {
            assert(doc@.nodes =~~= SpecDoc::root_only().nodes);
            assert(doc@.parent =~= SpecDoc::root_only().parent);
            assert(doc@ =~~= SpecDoc::root_only());
        }
        doc
    }

    /// Appends a node under `parent`; the new node gets the next pre-order
    /// index. A caller must hand a strictly deeper level than the parent's.
    pub fn add(
        &mut self,
        parent: DocNodeId,
        name: String,
        level: i32,
        code_blocks: Vec<CodeBlock>,
    ) -> (id: DocNodeId)
        requires
            old(self)@.wf(),
            parent < old(self)@.nodes.len(),
            old(self)@.nodes[parent as int].level < level,
        ensures
            final(self)@ == old(self)@.push_node(
                parent as int,
                SpecDocNode {
                    name: name@,
                    level: level as int,
                    code_blocks: code_blocks.deep_view(),
                },
            ),
            final(self)@.wf(),
            id == old(self)@.nodes.len(),
    {
        let id = self.nodes.len();
        let ghost target = self@.push_node(
            parent as int,
            SpecDocNode { name: name@, level: level as int, code_blocks: code_blocks.deep_view() },
        );
        self.nodes.push(DocNode { name, level, code_blocks });
        self.parent.push(parent);
        proof {
            assert(self@.nodes =~= target.nodes);
            assert(self@.parent =~= target.parent);
            assert(self@ =~= target);
            assert forall|i: int| 1 <= i < self@.nodes.len() implies 0 <= #[trigger] self@.parent[i]
                < i by {}
            assert(self@.wf());
        }
        id
    }

    /// The number of nodes, the synthetic root not counted.
    pub fn len(&self) -> (r: usize)
        requires
            self@.wf(),
        ensures
            r == self@.nodes.len() - 1,
    {
        self.nodes.len() - 1
    }

    /// The parent of `node`, or `None` for the root sentinel.
    pub fn get_parent(&self, node: DocNodeId) -> (r: Option<DocNodeId>)
        requires
            self@.wf(),
            node < self@.nodes.len(),
        ensures
            match r {
                Option::None => node == DOC_NODE_ROOT_ID,
                Option::Some(p) => node != DOC_NODE_ROOT_ID && p as int == self@.parent[node as int],
            },
    {
        if node == DOC_NODE_ROOT_ID {
            None
        } else {
            Some(self.parent[node])
        }
    }

    /// The breadcrumb of `node`: the names from its top-level ancestor down
    /// to and including its own.
    pub fn get_fullname(&self, node: DocNodeId) -> (r: Vec<String>)
        requires
            self@.wf(),
            0 < node < self@.nodes.len(),
        ensures
            r.deep_view() == self@.fullname_spec(node as int),
    {
        let ancs = self.get_ancestors(node);
        let ghost names = self@.ancestors_spec(node as int).map_values(
            |i: int| self@.nodes[i].name,
        );
        let mut fullname: Vec<String> = Vec::new();
        let mut i: usize = 0;
        proof {
            assert(fullname.deep_view() =~= names.subrange(0, 0));
        }
        while i < ancs.len()
            invariant
                self@.wf(),
                0 < node < self@.nodes.len(),
                ids(ancs@) == self@.ancestors_spec(node as int),
                forall|t: int| 0 <= t < ancs@.len() ==> 0 < #[trigger] ancs@[t] < node,
                names == self@.ancestors_spec(node as int).map_values(
                    |i: int| self@.nodes[i].name,
                ),
                0 <= i <= ancs@.len(),
                fullname.deep_view() == names.subrange(0, i as int),
            decreases ancs@.len() - i,
        {
            let n = ancs[i];
            let ghost predv = fullname.deep_view();
            fullname.push(self.nodes[n].name.clone());
            proof {
                let dv = fullname.deep_view();
                assert(predv.len() == i as int);
                assert(fullname@.len() == i + 1);
                assert(names[i as int] == self@.nodes[ancs@[i as int] as int].name);
                assert(dv.len() == i + 1);
                assert(dv[i as int] == names[i as int]);
                assert(forall|t: int| 0 <= t < i ==> dv[t] == names.subrange(0, i as int)[t]);
                assert(fullname.deep_view() =~= names.subrange(0, i + 1));
            }
            i += 1;
        }
        fullname.push(self.nodes[node].name.clone());
        proof {
            assert(names.subrange(0, ancs@.len() as int) =~= names);
            assert(fullname.deep_view() =~= self@.fullname_spec(node as int));
        }
        fullname
    }

    /// Assembles, for each language of `node`'s own code blocks
    /// (first-appearance order), the tagged code found along the
    /// root-to-node chain, ancestor code first, each node's blocks in
    /// source order.
    pub fn get_runnable_code(&self, node: DocNodeId) -> (r: Vec<RunnableCode>)
        requires
            self@.wf(),
            0 < node < self@.nodes.len(),
        ensures
            r.deep_view() == self@.runnable_spec(node as int),
    {
        let mut chain = self.get_ancestors(node);
        chain.push(node);
        proof {
            assert(ids(chain@) =~= self@.chain_spec(node as int));
        }
        let ghost own_blocks = self@.nodes[node as int].code_blocks;
        let mut langs: Vec<String> = Vec::new();
        let nb = self.nodes[node].code_blocks.len();
        let mut bi: usize = 0;
        proof {
            assert(langs.deep_view() =~= distinct_tags(own_blocks.subrange(0, 0)));
        }
        while bi < nb
            invariant
                self@.wf(),
                0 < node < self@.nodes.len(),
                own_blocks == self@.nodes[node as int].code_blocks,
                nb == own_blocks.len(),
                0 <= bi <= nb,
                langs.deep_view() == distinct_tags(own_blocks.subrange(0, bi as int)),
            decreases nb - bi,
        {
            let ghost pre = langs.deep_view();
            let tag = &self.nodes[node].code_blocks[bi].interpreter;
            if !crate::strutil::string_vec_contains(&langs, tag) {
                langs.push(tag.clone());
            }
            proof {
                let cur = own_blocks.subrange(0, bi + 1);
                assert(cur.drop_last() =~= own_blocks.subrange(0, bi as int));
                assert(cur.last() == own_blocks[bi as int]);
                if !pre.contains(own_blocks[bi as int].interpreter) {
                    assert(langs.deep_view() =~= pre.push(own_blocks[bi as int].interpreter));
                }
                assert(langs.deep_view() =~= distinct_tags(cur));
            }
            bi += 1;
        }
        proof {
            assert(own_blocks.subrange(0, nb as int) =~= own_blocks);
        }
        let ghost tags = distinct_tags(own_blocks);
        let mut result: Vec<RunnableCode> = Vec::new();
        let mut li: usize = 0;
        proof {
            assert(result.deep_view() =~= self@.runnable_spec(node as int).subrange(0, 0));
        }
        while li < langs.len()
            invariant
                self@.wf(),
                0 < node < self@.nodes.len(),
                tags == distinct_tags(self@.nodes[node as int].code_blocks),
                langs.deep_view() == tags,
                ids(chain@) == self@.chain_spec(node as int),
                forall|t: int| 0 <= t < chain@.len() ==> 0 < #[trigger] chain@[t] < self@.nodes.len(),
                0 <= li <= langs@.len(),
                result.deep_view() == self@.runnable_spec(node as int).subrange(0, li as int),
            decreases langs@.len() - li,
        {
            let lang = &langs[li];
            let ghost lg = tags[li as int];
            let mut blocks: Vec<String> = Vec::new();
            let mut ci: usize = 0;
            proof {
                assert(blocks.deep_view() =~= self@.codes_along(
                    ids(chain@).subrange(0, 0),
                    lg,
                ));
            }
            while ci < chain.len()
                invariant
                    self@.wf(),
                    0 < node < self@.nodes.len(),
                    ids(chain@) == self@.chain_spec(node as int),
                    forall|t: int|
                        0 <= t < chain@.len() ==> 0 < #[trigger] chain@[t] < self@.nodes.len(),
                    lg == langs.deep_view()[li as int],
                    li < langs@.len(),
                    0 <= ci <= chain@.len(),
                    blocks.deep_view() == self@.codes_along(
                        ids(chain@).subrange(0, ci as int),
                        lg,
                    ),
                decreases chain@.len() - ci,
            {
                let n = chain[ci];
                let ghost nblocks = self@.nodes[n as int].code_blocks;
                let nbl = self.nodes[n].code_blocks.len();
                let mut bj: usize = 0;
                proof {
                    assert(blocks.deep_view() + blocks_code_for(nblocks.subrange(0, 0), lg)
                        =~= blocks.deep_view());
                }
                while bj < nbl
                    invariant
                        self@.wf(),
                        0 < n < self@.nodes.len(),
                        nblocks == self@.nodes[n as int].code_blocks,
                        nbl == nblocks.len(),
                        lg == langs.deep_view()[li as int],
                        li < langs@.len(),
                        0 <= bj <= nbl,
                        0 <= ci < chain@.len(),
                        ids(chain@) == self@.chain_spec(node as int),
                        forall|t: int|
                            0 <= t < chain@.len() ==> 0 < #[trigger] chain@[t]
                                < self@.nodes.len(),
                        blocks.deep_view() == self@.codes_along(
                            ids(chain@).subrange(0, ci as int),
                            lg,
                        ) + blocks_code_for(nblocks.subrange(0, bj as int), lg),
                    decreases nbl - bj,
                {
                    let ghost bpre = blocks.deep_view();
                    if self.nodes[n].code_blocks[bj].interpreter == langs[li] {
                        blocks.push(self.nodes[n].code_blocks[bj].code.clone());
                        proof {
                            assert(blocks.deep_view() =~= bpre.push(nblocks[bj as int].code));
                        }
                    }
                    proof {
                        let cur = nblocks.subrange(0, bj + 1);
                        assert(cur.drop_last() =~= nblocks.subrange(0, bj as int));
                        assert(cur.last() == nblocks[bj as int]);
                        assert(blocks.deep_view() =~= self@.codes_along(
                            ids(chain@).subrange(0, ci as int),
                            lg,
                        ) + blocks_code_for(cur, lg));
                    }
                    bj += 1;
                }
                proof {
                    let curc = ids(chain@).subrange(0, ci + 1);
                    assert(curc.drop_last() =~= ids(chain@).subrange(0, ci as int));
                    assert(curc.last() == chain@[ci as int] as int);
                    assert(nblocks.subrange(0, nbl as int) =~= nblocks);
                    assert(blocks.deep_view() =~= self@.codes_along(curc, lg));
                }
                ci += 1;
            }
            proof {
                assert(ids(chain@).subrange(0, chain@.len() as int) =~= ids(chain@));
            }
            let interpreter = langs[li].clone();
            let fullname = self.get_fullname(node);
            let ghost rpre = result.deep_view();
            result.push(RunnableCode { interpreter, fullname, code: blocks });
            proof {
                let f = |l: Seq<char>|
                    SpecRunnableCode {
                        interpreter: l,
                        fullname: self@.fullname_spec(node as int),
                        code: self@.codes_along(self@.chain_spec(node as int), l),
                    };
                assert(result.deep_view() =~~= rpre.push(f(lg)));
                assert(self@.runnable_spec(node as int).subrange(0, li + 1) =~= self@.runnable_spec(
                    node as int,
                ).subrange(0, li as int).push(f(lg)));
                assert(result.deep_view() =~~= self@.runnable_spec(node as int).subrange(
                    0,
                    li + 1,
                ));
            }
            li += 1;
        }
        proof {
            assert(self@.runnable_spec(node as int).subrange(
                0,
                self@.runnable_spec(node as int).len() as int,
            ) =~= self@.runnable_spec(node as int));
        }
        result
    }

    /// Walks `child`'s parent chain toward the root; true iff `anscestor`
    /// is met before the root sentinel.
    pub fn is_anscestor(&self, anscestor: DocNodeId, child: DocNodeId) -> (b: bool)
        requires
            self@.wf(),
            0 < anscestor < self@.nodes.len(),
            0 < child < self@.nodes.len(),
        ensures
            b == self@.reaches(anscestor as int, child as int),
    {
        let mut cur = child;
        while cur != DOC_NODE_ROOT_ID && cur != anscestor
            invariant
                self@.wf(),
                cur < self@.nodes.len(),
                self@.reaches(anscestor as int, cur as int) == self@.reaches(
                    anscestor as int,
                    child as int,
                ),
            decreases cur,
        {
            cur = self.parent[cur];
        }
        cur == anscestor
    }

    /// Every proper ancestor of `node` except the root sentinel, in
    /// increasing index order: the root-to-parent chain in document order.
    pub fn get_ancestors(&self, node: DocNodeId) -> (r: Vec<DocNodeId>)
        requires
            self@.wf(),
            0 < node < self@.nodes.len(),
        ensures
            ids(r@) == self@.ancestors_spec(node as int),
            forall|t: int| 0 <= t < r@.len() ==> 0 < #[trigger] r@[t] < node,
    {
        let mut res: Vec<DocNodeId> = Vec::new();
        let mut ances: usize = 1;
        proof {
            assert(ids(res@) =~= self@.ancestors_upto(node as int, 1));
        }
        while ances < node
            invariant
                self@.wf(),
                0 < node < self@.nodes.len(),
                1 <= ances <= node,
                ids(res@) == self@.ancestors_upto(node as int, ances as int),
                forall|t: int| 0 <= t < res@.len() ==> 0 < #[trigger] res@[t] < node,
            decreases node - ances,
        {
            let ghost pre = res@;
            if self.is_anscestor(ances, node) {
                res.push(ances);
            }
            proof {
                if self@.reaches(ances as int, node as int) {
                    assert(ids(res@) =~= ids(pre).push(ances as int));
                } else {
                    assert(ids(res@) =~= ids(pre));
                }
                assert(ids(res@) =~= self@.ancestors_upto(node as int, ances + 1));
            }
            ances += 1;
        }
        res
    }

    /// Every proper descendant of `node`, in increasing index order.
    pub fn get_descendants(&self, node: DocNodeId) -> (r: Vec<DocNodeId>)
        requires
            self@.wf(),
            0 < node < self@.nodes.len(),
        ensures
            ids(r@) == self@.descendants_spec(node as int),
            forall|t: int| 0 <= t < r@.len() ==> node < #[trigger] r@[t] < self@.nodes.len(),
    {
        let mut res: Vec<DocNodeId> = Vec::new();
        let total = self.nodes.len();
        assert(total == self@.nodes.len());
        let mut child: usize = node + 1;
        proof {
            assert(ids(res@) =~= self@.descendants_upto(node as int, node + 1));
        }
        while child < self.nodes.len()
            invariant
                self@.wf(),
                0 < node < self@.nodes.len(),
                node + 1 <= child <= self@.nodes.len(),
                ids(res@) == self@.descendants_upto(node as int, child as int),
                forall|t: int| 0 <= t < res@.len() ==> node < #[trigger] res@[t] < self@.nodes.len(),
            decreases self@.nodes.len() - child,
        {
            let ghost pre = res@;
            if self.is_anscestor(node, child) {
                res.push(child);
            }
            proof {
                if self@.reaches(node as int, child as int) {
                    assert(ids(res@) =~= ids(pre).push(child as int));
                } else {
                    assert(ids(res@) =~= ids(pre));
                }
                assert(ids(res@) =~= self@.descendants_upto(node as int, child + 1));
            }
            child += 1;
        }
        res
    }

    /// The recursion behind `lookup_nodes`, with the keys `query[qi..]`
    /// still to match.
    fn lookup_rec(&self, start_node: DocNodeId, query: &[&str], qi: usize) -> (r: Vec<DocNodeId>)
        requires
            self@.wf(),
            start_node < self@.nodes.len(),
            qi <= query@.len(),
        ensures
            ids(r@) == self@.lookup_spec(start_node as int, query.deep_view(), qi as int),
        decreases self@.nodes.len() - start_node,
    {
        let ghost qdv = query.deep_view();
        let mut result: Vec<DocNodeId> = Vec::new();
        if qi >= query.len() {
            if start_node != DOC_NODE_ROOT_ID {
                result.push(start_node);
            }
            proof {
                assert(ids(result@) =~= self@.lookup_spec(start_node as int, qdv, qi as int));
            }
        } else {
            let key: &str = *slice_index_get(query, qi);
            proof {
                assert(key@ == qdv[qi as int]);
            }
            let qlen = query.len();
            let total = self.nodes.len();
            assert(total == self@.nodes.len());
            let mut child: usize = start_node + 1;
            proof {
                assert(ids(result@) + self@.lookup_scan(start_node as int, qdv, qi as int, child as int)
                    =~= self@.lookup_scan(start_node as int, qdv, qi as int, child as int));
            }
            while child < total
                invariant
                    self@.wf(),
                    total == self@.nodes.len(),
                    start_node < self@.nodes.len(),
                    qi < qlen,
                    qlen == qdv.len(),
                    qdv == query.deep_view(),
                    key@ == qdv[qi as int],
                    start_node + 1 <= child <= total,
                    self@.lookup_spec(start_node as int, qdv, qi as int) == ids(result@)
                        + self@.lookup_scan(start_node as int, qdv, qi as int, child as int),
                decreases self@.nodes.len() - child,
            {
                let ghost pre = result@;
                if self.parent[child] == start_node {
                    if contains_substring(self.nodes[child].name.as_str(), key) {
                        let mut sub1 = self.lookup_rec(child, query, qi + 1);
                        result.append(&mut sub1);
                        let mut sub2 = self.lookup_rec(child, query, qi);
                        result.append(&mut sub2);
                        proof {
                            assert(ids(result@) =~= ids(pre) + self@.lookup_spec(
                                child as int,
                                qdv,
                                qi + 1,
                            ) + self@.lookup_spec(child as int, qdv, qi as int));
                        }
                    } else {
                        let mut sub = self.lookup_rec(child, query, qi);
                        result.append(&mut sub);
                        proof {
                            assert(ids(result@) =~= ids(pre) + self@.lookup_spec(
                                child as int,
                                qdv,
                                qi as int,
                            ));
                        }
                    }
                }
                proof {
                    assert(self@.lookup_scan(start_node as int, qdv, qi as int, child as int) == (
                    if self@.parent[child as int] == start_node as int {
                        if is_substring(self@.nodes[child as int].name, qdv[qi as int]) {
                            self@.lookup_spec(child as int, qdv, qi + 1) + self@.lookup_spec(
                                child as int,
                                qdv,
                                qi as int,
                            )
                        } else {
                            self@.lookup_spec(child as int, qdv, qi as int)
                        }
                    } else {
                        Seq::empty()
                    }) + self@.lookup_scan(start_node as int, qdv, qi as int, child + 1));
                    if self@.parent[child as int] != start_node as int {
                        assert(ids(result@) =~= ids(pre) + Seq::<int>::empty());
                    }
                    assert(self@.lookup_spec(start_node as int, qdv, qi as int) == ids(result@)
                        + self@.lookup_scan(start_node as int, qdv, qi as int, child + 1)) by {
                        assert(ids(pre) + (self@.lookup_scan(
                            start_node as int,
                            qdv,
                            qi as int,
                            child as int,
                        )) =~= ids(result@) + self@.lookup_scan(
                            start_node as int,
                            qdv,
                            qi as int,
                            child + 1,
                        ));
                    }
                }
                child += 1;
            }
            proof {
                assert(self@.lookup_scan(start_node as int, qdv, qi as int, total as int)
                    =~= Seq::<int>::empty());
                assert(ids(result@) + Seq::<int>::empty() =~= ids(result@));
            }
        }
        result
    }

    /// Fuzzy path lookup: every node reachable from `start_node` by a
    /// descending path on which the query keys appear, in order, as
    /// substrings of node names — document order among siblings, and for
    /// each child the consume-branch results before the defer-branch ones.
    pub fn lookup_nodes(&self, start_node: DocNodeId, query: &[&str]) -> (r: Vec<DocNodeId>)
        requires
            self@.wf(),
            start_node < self@.nodes.len(),
        ensures
            ids(r@) == self@.lookup_spec(start_node as int, query.deep_view(), 0),
    {
        self.lookup_rec(start_node, query, 0)
    }

    /// A non-root node by index.
    pub fn get_node(&self, node: DocNodeId) -> (r: &DocNode)
        requires
            self@.wf(),
            0 < node < self@.nodes.len(),
        ensures
            r@ == self@.nodes[node as int],
    {
        &self.nodes[node]
    }
}

} // verus!
