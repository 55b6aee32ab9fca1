//! The markup document model and its parser.
//!
//! A document is a sequence of nodes: plain text, a named index mark, or a
//! speakable region holding child nodes. The wire form is the markup subset
//! the host submits in a speak request: bare text, `<speak ...>` regions that
//! may nest, and self-closing `<mark name="..."/>` checkpoints. Anything else
//! is a parse error, reported by byte position.
use vstd::prelude::*;

verus! {

use vstd::string::is_ascii;
use vstd::string::is_ascii_spec_bytes;
use crate::bytes::{lit, subrange_vec};

/// One node of a markup document.
pub enum Node {
    /// An ordered group of child nodes: the document root or a nested
    /// speakable region.
    Container(Vec<Node>),
    /// A run of text to synthesize, verbatim.
    Text(Vec<u8>),
    /// A named checkpoint that plays no audio.
    Mark(Vec<u8>),
}

/// The mathematical shadow of a node.
pub enum NodeV {
    Container(Seq<NodeV>),
    Text(Seq<u8>),
    Mark(Seq<u8>),
}

impl View for Node {
    type V = NodeV;

    open spec fn view(&self) -> NodeV
        decreases self,
    {
        match self {
            Node::Container(cs) => NodeV::Container(
                Seq::new(
                    cs@.len(),
                    |i: int|
                        if 0 <= i < cs@.len() {
                            cs@[i]@
                        } else {
                            NodeV::Text(Seq::empty())
                        },
                ),
            ),
            Node::Text(t) => NodeV::Text(t@),
            Node::Mark(m) => NodeV::Mark(m@),
        }
    }
}

/// The views of a sequence of nodes.
pub open spec fn node_views(ns: Seq<Node>) -> Seq<NodeV> {
    Seq::new(ns.len(), |i: int| ns[i]@)
}

/// The first position at or after `i` holding byte `b`, or the length when
/// none does.
pub open spec fn find_at(s: Seq<u8>, i: int, b: u8) -> int
    decreases s.len() - i,
{
    if i < 0 || i >= s.len() {
        s.len() as int
    } else if s[i] == b {
        i
    } else {
        find_at(s, i + 1, b)
    }
}

/// The first position at or after `i` holding no space byte.
pub open spec fn skip_ws(s: Seq<u8>, i: int) -> int
    decreases s.len() - i,
{
    if i < 0 || i >= s.len() {
        s.len() as int
    } else if s[i] == 0x20 {
        skip_ws(s, i + 1)
    } else {
        i
    }
}

/// True when `pat` occurs in `s` starting exactly at `i`.
pub open spec fn starts_at(s: Seq<u8>, i: int, pat: Seq<u8>) -> bool {
    0 <= i && i + pat.len() <= s.len() && s.subrange(i, i + pat.len()) == pat
}

/// What parsing one node yields: the node and the position after it, or the
/// position of the fault.
pub enum ItemOut {
    Got(NodeV, int),
    Fault(int),
}

/// What parsing a node sequence yields.
pub enum ItemsOut {
    Got(Seq<NodeV>, int),
    Fault(int),
}

/// Parses one node at `i`: a text run up to the next tag, a speakable region
/// with its children, or a self-closing named mark. `i` must sit on neither
/// the end nor a closing tag; any unknown tag is a fault.
pub open spec fn spec_parse_item(s: Seq<u8>, i: int) -> ItemOut
    decreases s.len() - i, 0int,
{
    if i < 0 || i >= s.len() {
        ItemOut::Fault(i)
    } else if s[i] != 0x3c {
        let j = find_at(s, i, 0x3c);
        ItemOut::Got(NodeV::Text(s.subrange(i, j)), j)
    } else if starts_at(s, i, lit("</"@)) {
        ItemOut::Fault(i)
    } else if starts_at(s, i, lit("<speak"@)) {
        let g0 = find_at(s, i, 0x3e);
        let g = if g0 < i + 1 {
            i + 1
        } else {
            g0
        };
        if g >= s.len() {
            ItemOut::Fault(g)
        } else if s[g - 1] == 0x2f {
            ItemOut::Got(NodeV::Container(Seq::empty()), g + 1)
        } else {
            match spec_parse_items(s, g + 1) {
                ItemsOut::Got(children, j) => {
                    if starts_at(s, j, lit("</speak"@)) {
                        let c = skip_ws(s, j + 7);
                        if c < s.len() && s[c] == 0x3e {
                            ItemOut::Got(NodeV::Container(children), c + 1)
                        } else {
                            ItemOut::Fault(c)
                        }
                    } else {
                        ItemOut::Fault(j)
                    }
                },
                ItemsOut::Fault(p) => ItemOut::Fault(p),
            }
        }
    } else if starts_at(s, i, lit("<mark"@)) {
        let a = skip_ws(s, i + 5);
        if starts_at(s, a, lit("name=\""@)) {
            let v = find_at(s, a + 6, 0x22);
            if v >= s.len() {
                ItemOut::Fault(v)
            } else {
                let c = skip_ws(s, v + 1);
                if starts_at(s, c, lit("/>"@)) {
                    ItemOut::Got(NodeV::Mark(s.subrange(a + 6, v)), c + 2)
                } else {
                    ItemOut::Fault(c)
                }
            }
        } else {
            ItemOut::Fault(a)
        }
    } else {
        ItemOut::Fault(i)
    }
}

/// Parses nodes from `i` until the end of input or a closing tag.
pub open spec fn spec_parse_items(s: Seq<u8>, i: int) -> ItemsOut
    decreases s.len() - i, 1int,
{
    if i < 0 {
        ItemsOut::Fault(i)
    } else if i >= s.len() {
        ItemsOut::Got(Seq::empty(), i)
    } else if starts_at(s, i, lit("</"@)) {
        ItemsOut::Got(Seq::empty(), i)
    } else {
        match spec_parse_item(s, i) {
            ItemOut::Got(n, j) => {
                if i < j <= s.len() {
                    match spec_parse_items(s, j) {
                        ItemsOut::Got(ns, k) => ItemsOut::Got(seq![n] + ns, k),
                        ItemsOut::Fault(p) => ItemsOut::Fault(p),
                    }
                } else {
                    ItemsOut::Fault(j)
                }
            },
            ItemOut::Fault(p) => ItemsOut::Fault(p),
        }
    }
}

/// Parses a whole document: the node sequence, or the byte position of the
/// first fault — which a stray closing tag also is.
pub open spec fn spec_parse_document(s: Seq<u8>) -> Result<Seq<NodeV>, int> {
    match spec_parse_items(s, 0) {
        ItemsOut::Got(ns, j) => {
            if j == s.len() {
                Ok(ns)
            } else {
                Err(j)
            }
        },
        ItemsOut::Fault(p) => Err(p),
    }
}

proof fn lemma_find_at_from(s: Seq<u8>, i: int, j: int, b: u8)
    requires
        0 <= i <= j <= s.len(),
        forall|k: int| i <= k < j ==> s[k] != b,
        j == s.len() || s[j] == b,
    ensures
        find_at(s, i, b) == j,
    decreases j - i,
{
    if i < j {
        lemma_find_at_from(s, i + 1, j, b);
    }
}

/// Finds the first `b` at or after `i`, as `find_at` names it.
pub fn find_at_vec(s: &Vec<u8>, i: usize, b: u8) -> (r: usize)
    requires
        i <= s@.len(),
    ensures
        r == find_at(s@, i as int, b),
        i <= r <= s@.len(),
        r < s@.len() ==> s@[r as int] == b,
        forall|k: int| i <= k < r ==> s@[k] != b,
{
    let n = s.len();
    let mut j: usize = i;
    while j < n
        invariant
            i <= j <= n,
            n == s@.len(),
            forall|k: int| i <= k < j ==> s@[k] != b,
        decreases n - j,
    {
        if s[j] == b {
            proof {
                lemma_find_at_from(s@, i as int, j as int, b);
            }
            return j;
        }
        j += 1;
    }
    proof {
        lemma_find_at_from(s@, i as int, n as int, b);
    }
    n
}

proof fn lemma_skip_ws_from(s: Seq<u8>, i: int, j: int)
    requires
        0 <= i <= j <= s.len(),
        forall|k: int| i <= k < j ==> s[k] == 0x20,
        j == s.len() || s[j] != 0x20,
    ensures
        skip_ws(s, i) == j,
    decreases j - i,
{
    if i < j {
        lemma_skip_ws_from(s, i + 1, j);
    }
}

/// Steps over spaces from `i`, as `skip_ws` names it.
fn skip_ws_vec(s: &Vec<u8>, i: usize) -> (r: usize)
    requires
        i <= s@.len(),
    ensures
        r == skip_ws(s@, i as int),
        i <= r <= s@.len(),
{
    let n = s.len();
    let mut j: usize = i;
    while j < n
        invariant
            i <= j <= n,
            n == s@.len(),
            forall|k: int| i <= k < j ==> s@[k] == 0x20,
        decreases n - j,
    {
        if s[j] != 0x20 {
            proof {
                lemma_skip_ws_from(s@, i as int, j as int);
            }
            return j;
        }
        j += 1;
    }
    proof {
        lemma_skip_ws_from(s@, i as int, n as int);
    }
    n
}

/// True when the ASCII pattern occurs in `s` exactly at `i`.
fn match_at(s: &Vec<u8>, i: usize, pat: &str) -> (r: bool)
    requires
        is_ascii(pat),
        i <= s@.len(),
    ensures
        r == starts_at(s@, i as int, lit(pat@)),
{
    let p = pat.as_bytes();
    proof {
        is_ascii_spec_bytes(pat);
        assert(p@ =~= lit(pat@));
    }
    let m = p.len();
    let n = s.len();
    if n - i < m {
        return false;
    }
    let mut k: usize = 0;
    while k < m
        invariant
            m == lit(pat@).len(),
            p@ == lit(pat@),
            n == s@.len(),
            i + m <= n,
            k <= m,
            forall|j: int| 0 <= j < k ==> s@[i + j] == lit(pat@)[j],
        decreases m - k,
    {
        if s[i + k] != p[k] {
            proof {
                assert(s@.subrange(i as int, i + m as int) != lit(pat@)) by {
                    assert(s@.subrange(i as int, i + m as int)[k as int] != lit(pat@)[k as int]);
                }
            }
            return false;
        }
        k += 1;
    }
    proof {
        assert(s@.subrange(i as int, i + m as int) =~= lit(pat@));
    }
    true
}

/// A node's view groups its children's views.
proof fn lemma_container_view(cs: Vec<Node>)
    ensures
        Node::Container(cs)@ == NodeV::Container(node_views(cs@)),
{
    let v = Node::Container(cs)@;
    assert(v matches NodeV::Container(x) && x =~= node_views(cs@));
}

/// Parses one node at `i`, mirroring `spec_parse_item`.
pub fn parse_item(s: &Vec<u8>, i: usize) -> (r: Result<(Node, usize), usize>)
    requires
        i < s@.len(),
    ensures
        match r {
            Ok(p) => spec_parse_item(s@, i as int) == ItemOut::Got(p.0@, p.1 as int) && i < p.1
                <= s@.len(),
            Err(p) => spec_parse_item(s@, i as int) == ItemOut::Fault(p as int),
        },
    decreases s@.len() - i, 0int,
{
    proof {
        reveal_strlit("</");
        reveal_strlit("<speak");
        reveal_strlit("</speak");
        reveal_strlit("<mark");
        reveal_strlit("name=\"");
        reveal_strlit("/>");
        assert(is_ascii("</"));
        assert(is_ascii("<speak"));
        assert(is_ascii("</speak"));
        assert(is_ascii("<mark"));
        assert(is_ascii("name=\""));
        assert(is_ascii("/>"));
    }
    if s[i] != 0x3c {
        let j = find_at_vec(s, i, 0x3c);
        proof {
            assert(j > i);
        }
        return Ok((Node::Text(subrange_vec(s, i, j)), j));
    }
    if match_at(s, i, "</") {
        return Err(i);
    }
    if match_at(s, i, "<speak") {
        let g = find_at_vec(s, i, 0x3e);
        proof {
            assert(g != i);
        }
        if g >= s.len() {
            return Err(g);
        }
        if s[g - 1] == 0x2f {
            let children: Vec<Node> = Vec::new();
            proof {
                lemma_container_view(children);
                assert(node_views(children@) =~= Seq::<NodeV>::empty());
            }
            return Ok((Node::Container(children), g + 1));
        }
        match parse_items(s, g + 1) {
            Ok((children, j)) => {
                if match_at(s, j, "</speak") {
                    let c = skip_ws_vec(s, j + 7);
                    if c < s.len() && s[c] == 0x3e {
                        proof {
                            lemma_container_view(children);
                        }
                        Ok((Node::Container(children), c + 1))
                    } else {
                        Err(c)
                    }
                } else {
                    Err(j)
                }
            },
            Err(p) => Err(p),
        }
    } else if match_at(s, i, "<mark") {
        let n = s.len();
        proof {
            assert(i + 5 <= n);
        }
        let a = skip_ws_vec(s, i + 5);
        if match_at(s, a, "name=\"") {
            proof {
                assert(a + 6 <= n);
            }
            let v = find_at_vec(s, a + 6, 0x22);
            if v >= s.len() {
                return Err(v);
            }
            let c = skip_ws_vec(s, v + 1);
            if match_at(s, c, "/>") {
                Ok((Node::Mark(subrange_vec(s, a + 6, v)), c + 2))
            } else {
                Err(c)
            }
        } else {
            Err(a)
        }
    } else {
        Err(i)
    }
}

/// Parses nodes from `i` up to the end of input or a closing tag, mirroring
/// `spec_parse_items`.
pub fn parse_items(s: &Vec<u8>, i: usize) -> (r: Result<(Vec<Node>, usize), usize>)
    requires
        i <= s@.len(),
    ensures
        match r {
            Ok(p) => spec_parse_items(s@, i as int) == ItemsOut::Got(node_views(p.0@), p.1 as int)
                && i <= p.1 <= s@.len(),
            Err(p) => spec_parse_items(s@, i as int) == ItemsOut::Fault(p as int),
        },
    decreases s@.len() - i, 1int,
{
    proof {
        reveal_strlit("</");
        assert(is_ascii("</"));
    }
    if i >= s.len() {
        let ns: Vec<Node> = Vec::new();
        proof {
            assert(node_views(ns@) =~= Seq::<NodeV>::empty());
        }
        return Ok((ns, i));
    }
    if match_at(s, i, "</") {
        let ns: Vec<Node> = Vec::new();
        proof {
            assert(node_views(ns@) =~= Seq::<NodeV>::empty());
        }
        return Ok((ns, i));
    }
    match parse_item(s, i) {
        Ok((n, j)) => {
            let ghost nv = n@;
            match parse_items(s, j) {
                Ok((mut ns, k)) => {
                    let ghost tail = node_views(ns@);
                    ns.insert(0, n);
                    proof {
                        assert(node_views(ns@) =~= seq![nv] + tail);
                    }
                    Ok((ns, k))
                },
                Err(p) => Err(p),
            }
        },
        Err(p) => Err(p),
    }
}

/// Parses a whole document, mirroring `spec_parse_document`: the node
/// sequence, or the byte position of the first fault.
pub fn parse_document(s: &Vec<u8>) -> (r: Result<Vec<Node>, usize>)
    ensures
        match r {
            Ok(ns) => spec_parse_document(s@) == Ok::<Seq<NodeV>, int>(node_views(ns@)),
            Err(p) => spec_parse_document(s@) == Err::<Seq<NodeV>, int>(p as int),
        },
{
    match parse_items(s, 0) {
        Ok((ns, j)) => {
            if j == s.len() {
                Ok(ns)
            } else {
                Err(j)
            }
        },
        Err(p) => Err(p),
    }
}

/// One playable step of a document, in document order: a text run, a named
/// mark, or the boundary of a speakable region. The region boundaries matter
/// to pause propagation: a pending pause belongs to the region it was raised
/// in and never descends into a region entered later.
pub enum Item {
    Text(Vec<u8>),
    Mark(Vec<u8>),
    Enter,
    Leave,
}

/// The mathematical shadow of a playable step.
pub enum ItemV {
    Text(Seq<u8>),
    Mark(Seq<u8>),
    Enter,
    Leave,
}

impl View for Item {
    type V = ItemV;

    open spec fn view(&self) -> ItemV {
        match self {
            Item::Text(t) => ItemV::Text(t@),
            Item::Mark(m) => ItemV::Mark(m@),
            Item::Enter => ItemV::Enter,
            Item::Leave => ItemV::Leave,
        }
    }
}

/// The views of a sequence of playable steps.
pub open spec fn item_views(xs: Seq<Item>) -> Seq<ItemV> {
    Seq::new(xs.len(), |i: int| xs[i]@)
}

/// The playable steps of one node, in document order: a container contributes
/// its children's steps in order.
pub open spec fn flatten_node(n: NodeV) -> Seq<ItemV>
    decreases n,
{
    match n {
        NodeV::Container(cs) => seq![ItemV::Enter] + flatten_nodes(cs) + seq![ItemV::Leave],
        NodeV::Text(t) => seq![ItemV::Text(t)],
        NodeV::Mark(m) => seq![ItemV::Mark(m)],
    }
}

/// The playable steps of a node sequence, in order.
pub open spec fn flatten_nodes(ns: Seq<NodeV>) -> Seq<ItemV>
    decreases ns,
{
    if ns.len() == 0 {
        Seq::empty()
    } else {
        flatten_node(ns[0]) + flatten_nodes(ns.drop_first())
    }
}

/// The size of a node: itself and everything below it.
pub open spec fn node_size(n: NodeV) -> nat
    decreases n,
{
    match n {
        NodeV::Container(cs) => 1 + nodes_size(cs),
        NodeV::Text(_) => 1,
        NodeV::Mark(_) => 1,
    }
}

/// The total size of a node sequence.
pub open spec fn nodes_size(ns: Seq<NodeV>) -> nat
    decreases ns,
{
    if ns.len() == 0 {
        0
    } else {
        node_size(ns[0]) + nodes_size(ns.drop_first())
    }
}

proof fn lemma_nodes_size_elem(ns: Seq<NodeV>, i: int)
    requires
        0 <= i < ns.len(),
    ensures
        node_size(ns[i]) <= nodes_size(ns),
    decreases ns.len(),
{
    if i > 0 {
        lemma_nodes_size_elem(ns.drop_first(), i - 1);
    }
}

proof fn lemma_flatten_nodes_push(ns: Seq<NodeV>, n: NodeV)
    ensures
        flatten_nodes(ns.push(n)) == flatten_nodes(ns) + flatten_node(n),
    decreases ns.len(),
{
    if ns.len() == 0 {
        assert(ns.push(n)[0] == n);
        assert(ns.push(n).drop_first() =~= Seq::<NodeV>::empty());
        assert(flatten_nodes(ns.push(n)) == flatten_node(n) + flatten_nodes(
            Seq::<NodeV>::empty(),
        ));
        assert(flatten_nodes(ns.push(n)) =~= flatten_nodes(ns) + flatten_node(n));
    } else {
        assert(ns.push(n)[0] == ns[0]);
        assert(ns.push(n).drop_first() =~= ns.drop_first().push(n));
        lemma_flatten_nodes_push(ns.drop_first(), n);
        assert(flatten_nodes(ns.push(n)) =~= flatten_nodes(ns) + flatten_node(n));
    }
}

/// Collects one node's playable steps onto `out`.
fn flatten_into(n: &Node, out: &mut Vec<Item>)
    ensures
        item_views(final (out)@) == item_views(old(out)@) + flatten_node(n@),
    decreases node_size(n@),
{
    match n {
        Node::Container(cs) => {
            let ghost start = out@;
            out.push(Item::Enter);
            let m = cs.len();
            let mut i: usize = 0;
            proof {
                assert(item_views(out@) =~= item_views(start) + seq![ItemV::Enter]
                    + flatten_nodes(node_views(cs@).take(0)));
            }
            while i < m
                invariant
                    *n == Node::Container(*cs),
                    m == cs@.len(),
                    i <= m,
                    item_views(out@) == item_views(old(out)@) + seq![ItemV::Enter]
                        + flatten_nodes(node_views(cs@).take(i as int)),
                decreases m - i,
            {
                proof {
                    lemma_container_view(*cs);
                    lemma_nodes_size_elem(node_views(cs@), i as int);
                    assert(node_views(cs@)[i as int] == cs@[i as int]@);
                    assert(node_size(cs@[i as int]@) < node_size(n@));
                }
                flatten_into(&cs[i], out);
                proof {
                    assert(node_views(cs@).take(i + 1 as int) =~= node_views(cs@).take(
                        i as int,
                    ).push(cs@[i as int]@));
                    lemma_flatten_nodes_push(node_views(cs@).take(i as int), cs@[i as int]@);
                }
                i += 1;
            }
            proof {
                assert(node_views(cs@).take(m as int) =~= node_views(cs@));
            }
            let ghost pre = out@;
            out.push(Item::Leave);
            proof {
                assert(item_views(out@) =~= item_views(pre) + seq![ItemV::Leave]);
                assert(n@ matches NodeV::Container(x) && x == node_views(cs@)) by {
                    assert(n@ matches NodeV::Container(x) && x =~= node_views(cs@));
                }
                assert(item_views(out@) =~= item_views(old(out)@) + flatten_node(n@));
            }
        },
        Node::Text(t) => {
            let ghost before = out@;
            out.push(Item::Text(crate::bytes::copy_vec(t)));
            proof {
                assert(item_views(out@) =~= item_views(before) + flatten_node(n@));
            }
        },
        Node::Mark(mk) => {
            let ghost before = out@;
            out.push(Item::Mark(crate::bytes::copy_vec(mk)));
            proof {
                assert(item_views(out@) =~= item_views(before) + flatten_node(n@));
            }
        },
    }
}

/// The playable steps of a whole document, in document order.
pub fn flatten(ns: &Vec<Node>) -> (r: Vec<Item>)
    ensures
        item_views(r@) == flatten_nodes(node_views(ns@)),
{
    let mut out: Vec<Item> = Vec::new();
    let m = ns.len();
    let mut i: usize = 0;
    proof {
        assert(item_views(out@) =~= flatten_nodes(node_views(ns@).take(0)));
    }
    while i < m
        invariant
            m == ns@.len(),
            i <= m,
            item_views(out@) == flatten_nodes(node_views(ns@).take(i as int)),
        decreases m - i,
    {
        flatten_into(&ns[i], &mut out);
        proof {
            assert(node_views(ns@).take(i + 1 as int) =~= node_views(ns@).take(i as int).push(
                ns@[i as int]@,
            ));
            lemma_flatten_nodes_push(node_views(ns@).take(i as int), ns@[i as int]@);
        }
        i += 1;
    }
    proof {
        assert(node_views(ns@).take(m as int) =~= node_views(ns@));
    }
    out
}

} // verus!
