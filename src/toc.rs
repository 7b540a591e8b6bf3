//! Table-of-contents synthesis: a tree of path segments kept in depth-first,
//! alphabetical order, and its rendering as a Markdown bullet list.

use vstd::prelude::*;
use vstd::string::*;
use crate::text::{
    push_char, push_str, seq_lt, lemma_seq_lt_irreflexive, lemma_seq_lt_transitive,
    lemma_seq_lt_total, str_less, has_suffix, ends_with_str, has_substring, contains_str, joined,
    views, join_with,
};

verus! {

// ----- order on segment paths -----

/// Lexicographic order on segment sequences; a node precedes its descendants.
pub open spec fn path_lt(a: Seq<Seq<char>>, b: Seq<Seq<char>>) -> bool
    decreases a.len(),
{
    if a.len() == 0 {
        b.len() > 0
    } else if b.len() == 0 {
        false
    } else if a[0] != b[0] {
        seq_lt(a[0], b[0])
    } else {
        path_lt(a.drop_first(), b.drop_first())
    }
}

pub proof fn lemma_path_lt_irreflexive(a: Seq<Seq<char>>)
    ensures
        !path_lt(a, a),
    decreases a.len(),
{
    if a.len() > 0 {
        lemma_path_lt_irreflexive(a.drop_first());
    }
}

pub proof fn lemma_path_lt_transitive(a: Seq<Seq<char>>, b: Seq<Seq<char>>, c: Seq<Seq<char>>)
    requires
        path_lt(a, b),
        path_lt(b, c),
    ensures
        path_lt(a, c),
    decreases a.len(),
{
    if a.len() > 0 && b.len() > 0 && c.len() > 0 {
        if a[0] == b[0] && b[0] == c[0] {
            lemma_path_lt_transitive(a.drop_first(), b.drop_first(), c.drop_first());
        } else if a[0] != b[0] && b[0] != c[0] {
            lemma_seq_lt_transitive(a[0], b[0], c[0]);
            if a[0] == c[0] {
                lemma_seq_lt_irreflexive(a[0]);
            }
        }
    }
}

pub proof fn lemma_path_lt_total(a: Seq<Seq<char>>, b: Seq<Seq<char>>)
    ensures
        path_lt(a, b) || path_lt(b, a) || a == b,
    decreases a.len(),
{
    if a.len() > 0 && b.len() > 0 {
        if a[0] == b[0] {
            lemma_path_lt_total(a.drop_first(), b.drop_first());
            if a.drop_first() == b.drop_first() {
                assert(a =~= seq![a[0]] + a.drop_first());
                assert(b =~= seq![b[0]] + b.drop_first());
            }
        } else {
            lemma_seq_lt_total(a[0], b[0]);
        }
    } else if a.len() == 0 && b.len() == 0 {
        assert(a =~= b);
    }
}

fn path_less(a: &Vec<String>, b: &Vec<String>) -> (r: bool)
    ensures
        r == path_lt(views(a@), views(b@)),
{
    let mut i: usize = 0;
    assert(views(a@).skip(0) =~= views(a@) && views(b@).skip(0) =~= views(b@));
    while i < a.len() && i < b.len()
        invariant
            i <= a@.len(),
            i <= b@.len(),
            path_lt(views(a@), views(b@)) == path_lt(views(a@).skip(i as int), views(b@).skip(i as int)),
        decreases a@.len() - i,
    {
        let ghost va = views(a@).skip(i as int);
        let ghost vb = views(b@).skip(i as int);
        assert(va[0] == a@[i as int]@ && vb[0] == b@[i as int]@);
        if a[i] != b[i] {
            return str_less(a[i].as_str(), b[i].as_str());
        }
        assert(va.drop_first() =~= views(a@).skip(i + 1));
        assert(vb.drop_first() =~= views(b@).skip(i + 1));
        i = i + 1;
    }
    i == a.len() && i < b.len()
}

fn path_equal(a: &Vec<String>, b: &Vec<String>) -> (r: bool)
    ensures
        r == (views(a@) == views(b@)),
{
    if a.len() != b.len() {
        return false;
    }
    let mut i: usize = 0;
    while i < a.len()
        invariant
            a@.len() == b@.len(),
            i <= a@.len(),
            forall|k: int| 0 <= k < i ==> a@[k]@ == b@[k]@,
        decreases a@.len() - i,
    {
        if a[i] != b[i] {
            assert(views(a@)[i as int] != views(b@)[i as int]);
            return false;
        }
        i = i + 1;
    }
    assert(views(a@) =~= views(b@));
    true
}

// ----- the node set and its order -----

/// Strictly increasing in `path_lt`.
pub open spec fn sorted_paths(s: Seq<Seq<Seq<char>>>) -> bool {
    forall|i: int, j: int| 0 <= i < j < s.len() ==> path_lt(s[i], s[j])
}

/// Non-empty leading parts of `p`, `p` itself included.
pub open spec fn prefixes(p: Seq<Seq<char>>) -> Set<Seq<Seq<char>>> {
    Set::new(|q: Seq<Seq<char>>| 0 < q.len() <= p.len() && q == p.subrange(0, q.len() as int))
}

/// Every node of the tree built from `paths`: each path with all its ancestors.
pub open spec fn tree_nodes(paths: Set<Seq<Seq<char>>>) -> Set<Seq<Seq<char>>> {
    Set::new(|q: Seq<Seq<char>>| exists|p: Seq<Seq<char>>| paths.contains(p) && prefixes(p).contains(q))
}

/// The nodes in depth-first alphabetical order.
pub open spec fn in_toc_order(nodes: Set<Seq<Seq<char>>>) -> Seq<Seq<Seq<char>>> {
    choose|s: Seq<Seq<Seq<char>>>| sorted_paths(s) && s.to_set() == nodes
}

/// Two increasing sequences with the same elements are equal.
pub proof fn lemma_sorted_unique(a: Seq<Seq<Seq<char>>>, b: Seq<Seq<Seq<char>>>)
    requires
        sorted_paths(a),
        sorted_paths(b),
        a.to_set() == b.to_set(),
    ensures
        a == b,
    decreases a.len(),
{
    if a.len() == 0 {
        if b.len() > 0 {
            assert(b.to_set().contains(b[0]));
        }
        assert(a =~= b);
    } else {
        assert(a.to_set().contains(a[0]));
        assert(b.len() > 0);
        assert(b.to_set().contains(b[0]));
        let j = choose|j: int| 0 <= j < b.len() && b[j] == a[0];
        let k = choose|k: int| 0 <= k < a.len() && a[k] == b[0];
        if j > 0 {
            if k > 0 {
                lemma_path_lt_transitive(b[0], a[0], b[0]);
            }
            lemma_path_lt_irreflexive(b[0]);
        }
        let ra = a.drop_first();
        let rb = b.drop_first();
        assert forall|x| ra.to_set().contains(x) <==> rb.to_set().contains(x) by {
            if ra.to_set().contains(x) {
                let i = choose|i: int| 0 <= i < ra.len() && ra[i] == x;
                assert(a[i + 1] == x);
                assert(b.to_set().contains(x));
                let m = choose|m: int| 0 <= m < b.len() && b[m] == x;
                if m == 0 {
                    lemma_path_lt_irreflexive(a[0]);
                }
                assert(rb[m - 1] == x);
            }
            if rb.to_set().contains(x) {
                let i = choose|i: int| 0 <= i < rb.len() && rb[i] == x;
                assert(b[i + 1] == x);
                assert(a.to_set().contains(x));
                let m = choose|m: int| 0 <= m < a.len() && a[m] == x;
                if m == 0 {
                    lemma_path_lt_irreflexive(b[0]);
                }
                assert(ra[m - 1] == x);
            }
        }
        assert(ra.to_set() =~= rb.to_set());
        lemma_sorted_unique(ra, rb);
        assert(a =~= seq![a[0]] + ra);
        assert(b =~= seq![b[0]] + rb);
    }
}

/// A tree of path segments, held as its nodes in depth-first alphabetical
/// order; a node is the segment sequence that leads to it from the root.
pub struct TocTree {
    nodes: Vec<Vec<String>>,
}

impl TocTree {
    pub closed spec fn view(&self) -> Seq<Seq<Seq<char>>> {
        self.nodes@.map_values(|n: Vec<String>| views(n@))
    }

    pub open spec fn wf(&self) -> bool {
        &&& sorted_paths(self.view())
        &&& forall|i: int| 0 <= i < self.view().len() ==> #[trigger] self.view()[i].len() > 0
    }

    pub fn new() -> (r: TocTree)
        ensures
            r.wf(),
            r.view() == Seq::<Seq<Seq<char>>>::empty(),
    {
        let r = TocTree { nodes: Vec::new() };
        assert(r.view() =~= Seq::<Seq<Seq<char>>>::empty());
        r
    }

    /// Adds one node, keeping the order; a node already present is not repeated.
    fn insert_node(&mut self, node: Vec<String>)
        requires
            old(self).wf(),
            node@.len() > 0,
        ensures
            final(self).wf(),
            final(self).view().to_set() == old(self).view().to_set().insert(views(node@)),
    {
        let ghost v = self.view();
        let ghost x = views(node@);
        let mut i: usize = 0;
        while i < self.nodes.len()
            invariant
                self.view() == v,
                x == views(node@),
                self.wf(),
                i <= self.nodes@.len(),
                forall|k: int| 0 <= k < i ==> path_lt(#[trigger] v[k], x),
            ensures
                self.view() == v,
                self.wf(),
                i <= self.nodes@.len(),
                forall|k: int| 0 <= k < i ==> path_lt(#[trigger] v[k], x),
                i < self.nodes@.len() ==> !path_lt(v[i as int], x),
            decreases self.nodes@.len() - i,
        {
            assert(v[i as int] == views(self.nodes@[i as int]@));
            if !path_less(&self.nodes[i], &node) {
                break;
            }
            i = i + 1;
        }
        if i < self.nodes.len() {
            assert(v[i as int] == views(self.nodes@[i as int]@));
            if path_equal(&self.nodes[i], &node) {
                assert(v.to_set().contains(x));
                assert(v.to_set().insert(x) =~= v.to_set());
                return;
            }
            proof {
                lemma_path_lt_total(v[i as int], x);
            }
        }
        self.nodes.insert(i, node);
        let ghost w = self.view();
        assert(w =~= v.insert(i as int, x));
        assert forall|a: int| 0 <= a < w.len() implies #[trigger] w[a].len() > 0 by {
            if a > i {
                assert(w[a] == v[a - 1]);
            }
        }
        assert forall|a: int, b: int| 0 <= a < b < w.len() implies path_lt(w[a], w[b]) by {
            if b < i {
            } else if a < i && b == i {
            } else if a < i && b > i {
                assert(w[b] == v[b - 1]);
                if i < v.len() {
                    if b - 1 > i {
                        lemma_path_lt_transitive(x, v[i as int], v[b - 1]);
                    }
                    lemma_path_lt_transitive(w[a], x, v[b - 1]);
                }
            } else if a == i {
                assert(w[b] == v[b - 1]);
                if b - 1 > i {
                    lemma_path_lt_transitive(x, v[i as int], v[b - 1]);
                }
            } else {
                assert(w[a] == v[a - 1] && w[b] == v[b - 1]);
            }
        }
        assert(w.to_set() =~= v.to_set().insert(x)) by {
            assert forall|y| w.to_set().contains(y) <==> v.to_set().insert(x).contains(y) by {
                if w.to_set().contains(y) {
                    let m = choose|m: int| 0 <= m < w.len() && w[m] == y;
                    if m < i {
                        assert(v[m] == y);
                    } else if m > i {
                        assert(v[m - 1] == y);
                    }
                }
                if v.to_set().contains(y) {
                    let m = choose|m: int| 0 <= m < v.len() && v[m] == y;
                    if m < i {
                        assert(w[m] == y);
                    } else {
                        assert(w[m + 1] == y);
                    }
                }
                if y == x {
                    assert(w[i as int] == x);
                }
            }
        }
    }

    /// Adds a path and all its ancestors.
    pub fn insert_path(&mut self, path: &Vec<String>)
        requires
            old(self).wf(),
        ensures
            final(self).wf(),
            final(self).view().to_set() == old(self).view().to_set().union(prefixes(views(path@))),
    {
        let ghost p = views(path@);
        let ghost start = self.view().to_set();
        let mut k: usize = 0;
        let mut node: Vec<String> = Vec::new();
        while k < path.len()
            invariant
                self.wf(),
                k <= path@.len(),
                p == views(path@),
                p.len() == path@.len(),
                views(node@) == p.subrange(0, k as int),
                self.view().to_set() == start.union(Set::new(|q: Seq<Seq<char>>| 0 < q.len() <= k && q == p.subrange(0, q.len() as int))),
            decreases path@.len() - k,
        {
            let ghost before = self.view().to_set();
            let ghost old_node = node@;
            let seg: String = path[k].clone();
            node.push(seg);
            assert(node@ == old_node.push(seg));
            assert(p[k as int] == path@[k as int]@);
            assert(views(node@) =~= views(old_node).push(seg@));
            assert(node@.len() > 0);
            assert(views(node@) =~= p.subrange(0, k + 1));
            self.insert_node(node.clone());
            k = k + 1;
            let ghost upto = Set::new(|q: Seq<Seq<char>>| 0 < q.len() <= k && q == p.subrange(0, q.len() as int));
            assert forall|q| self.view().to_set().contains(q) <==> start.union(upto).contains(q) by {
                if q == p.subrange(0, k as int) {
                    assert(q.len() == k);
                }
            }
            assert(self.view().to_set() =~= start.union(upto));
        }
        assert(self.view().to_set() =~= start.union(prefixes(p)));
    }
}

} // verus!

verus! {

// ----- percent-encoding of link targets -----

/// Upper-case hexadecimal digit of `n` (below 16).
pub open spec fn hex_upper(n: u8) -> char {
    seq!['0', '1', '2', '3', '4', '5', '6', '7', '8', '9', 'A', 'B', 'C', 'D', 'E', 'F'][n as int]
}

/// ASCII letters, digits and `/` appear in a link as they are.
pub open spec fn kept_byte(b: u8) -> bool {
    (48 <= b <= 57) || (65 <= b <= 90) || (97 <= b <= 122) || b == 47
}

pub open spec fn encoded_byte(b: u8) -> Seq<char> {
    if kept_byte(b) {
        seq![b as char]
    } else {
        seq!['%', hex_upper(b / 16), hex_upper(b % 16)]
    }
}

/// Each byte kept or written as `%XX`.
pub open spec fn pct_encoded(bs: Seq<u8>) -> Seq<char>
    decreases bs.len(),
{
    if bs.len() == 0 {
        Seq::empty()
    } else {
        pct_encoded(bs.drop_last()) + encoded_byte(bs.last())
    }
}

/// Value of a hexadecimal digit, either case.
pub open spec fn hex_value(c: u8) -> Option<u8> {
    if 48 <= c <= 57 {
        Some((c - 48) as u8)
    } else if 65 <= c <= 70 {
        Some((c - 55) as u8)
    } else if 97 <= c <= 102 {
        Some((c - 87) as u8)
    } else {
        None
    }
}

/// Percent-decoding: `%` and two hexadecimal digits stand for one byte; any
/// other byte stands for itself.
pub open spec fn pct_decoded(bs: Seq<u8>) -> Seq<u8>
    decreases bs.len(),
{
    if bs.len() == 0 {
        Seq::empty()
    } else if bs.len() >= 3 && bs[0] == 37 && hex_value(bs[1]) is Some && hex_value(bs[2]) is Some {
        seq![(hex_value(bs[1]).unwrap() * 16 + hex_value(bs[2]).unwrap()) as u8] + pct_decoded(
            bs.subrange(3, bs.len() as int),
        )
    } else {
        seq![bs[0]] + pct_decoded(bs.drop_first())
    }
}

/// Relies on `percent_encoding::percent_encode_byte`: `%` and the two
/// upper-case hex digits of the byte.
#[verifier::external_body]
fn percent_escape(b: u8) -> (r: &'static str)
    ensures
        r@ == seq!['%', hex_upper(b / 16), hex_upper(b % 16)],
{
    percent_encoding::percent_encode_byte(b)
}

/// Percent-encodes the UTF-8 bytes of `s`, keeping ASCII letters, digits and `/`.
pub fn percent_encode_path(s: &str) -> (r: String)
    ensures
        r@ == pct_encoded(s.spec_bytes()),
{
    let bytes = s.as_bytes();
    let mut out = String::new();
    let mut i: usize = 0;
    while i < bytes.len()
        invariant
            bytes@ == s.spec_bytes(),
            i <= bytes@.len(),
            out@ == pct_encoded(bytes@.subrange(0, i as int)),
        decreases bytes@.len() - i,
    {
        let b = bytes[i];
        if (b >= 48 && b <= 57) || (b >= 65 && b <= 90) || (b >= 97 && b <= 122) || b == 47 {
            push_char(&mut out, b as char);
        } else {
            push_str(&mut out, percent_escape(b));
        }
        assert(bytes@.subrange(0, i + 1).drop_last() =~= bytes@.subrange(0, i as int));
        i = i + 1;
    }
    assert(bytes@.subrange(0, bytes@.len() as int) =~= bytes@);
    out
}

proof fn lemma_pct_encoded_front(bs: Seq<u8>)
    requires
        bs.len() > 0,
    ensures
        pct_encoded(bs) == encoded_byte(bs[0]) + pct_encoded(bs.drop_first()),
    decreases bs.len(),
{
    if bs.len() == 1 {
        assert(bs.drop_last() =~= Seq::<u8>::empty());
        assert(bs.drop_first() =~= Seq::<u8>::empty());
        assert(pct_encoded(bs.drop_first()) =~= Seq::<char>::empty());
        assert(pct_encoded(bs.drop_last()) =~= Seq::<char>::empty());
        assert(pct_encoded(bs) =~= encoded_byte(bs[0]));
    } else {
        lemma_pct_encoded_front(bs.drop_last());
        assert(bs.drop_last().drop_first() =~= bs.drop_first().drop_last());
        assert(bs.drop_first().last() == bs.last());
    }
}

proof fn lemma_encoded_ascii(bs: Seq<u8>)
    ensures
        vstd::utf8::is_ascii_chars(pct_encoded(bs)),
    decreases bs.len(),
{
    if bs.len() > 0 {
        lemma_encoded_ascii(bs.drop_last());
        let b = bs.last();
        assert(vstd::utf8::is_ascii_chars(encoded_byte(b))) by {
            if !kept_byte(b) {
                assert(b / 16 < 16 && b % 16 < 16);
            }
        }
        assert forall|i| 0 <= i < pct_encoded(bs).len() implies '\0' <= #[trigger] pct_encoded(bs)[i] <= '\u{7f}' by {
            let pre = pct_encoded(bs.drop_last());
            if i >= pre.len() {
                assert(pct_encoded(bs)[i] == encoded_byte(b)[i - pre.len()]);
            } else {
                assert(pct_encoded(bs)[i] == pre[i]);
            }
        }
    }
}

/// Bytes of an all-ASCII character sequence.
pub open spec fn ascii_bytes(cs: Seq<char>) -> Seq<u8> {
    cs.map_values(|c: char| c as u8)
}

proof fn lemma_decode_encoded_bytes(bs: Seq<u8>)
    ensures
        pct_decoded(ascii_bytes(pct_encoded(bs))) == bs,
    decreases bs.len(),
{
    if bs.len() == 0 {
        assert(ascii_bytes(pct_encoded(bs)) =~= Seq::<u8>::empty());
    } else {
        lemma_pct_encoded_front(bs);
        let b = bs[0];
        let rest = pct_encoded(bs.drop_first());
        lemma_decode_encoded_bytes(bs.drop_first());
        let all = ascii_bytes(pct_encoded(bs));
        if kept_byte(b) {
            assert(all =~= seq![b] + ascii_bytes(rest)) by {
                assert((b as char) as u8 == b);
            }
            assert(all[0] != 37u8);
            assert(all.drop_first() =~= ascii_bytes(rest));
        } else {
            let hi = b / 16;
            let lo = b % 16;
            assert(all =~= seq![37u8, hex_upper(hi) as u8, hex_upper(lo) as u8] + ascii_bytes(rest));
            assert(hex_value(hex_upper(hi) as u8) == Some(hi)) by {
                assert(hi < 16);
            }
            assert(hex_value(hex_upper(lo) as u8) == Some(lo)) by {
                assert(lo < 16);
            }
            assert(all.subrange(3, all.len() as int) =~= ascii_bytes(rest));
            assert((hi * 16 + lo) as u8 == b);
        }
        assert(bs =~= seq![b] + bs.drop_first());
    }
}

/// Decoding a link target gives back the bytes that were encoded: the text of
/// every TOC link percent-decodes to the path it was made from.
pub proof fn lemma_percent_round_trip(s: Seq<char>)
    ensures
        pct_decoded(vstd::utf8::encode_utf8(pct_encoded(vstd::utf8::encode_utf8(s))))
            == vstd::utf8::encode_utf8(s),
{
    let bs = vstd::utf8::encode_utf8(s);
    let enc = pct_encoded(bs);
    lemma_encoded_ascii(bs);
    vstd::utf8::is_ascii_chars_encode_utf8(enc);
    assert(vstd::utf8::encode_utf8(enc) =~= ascii_bytes(enc));
    lemma_decode_encoded_bytes(bs);
}

// ----- lines of the document -----

/// Link target of a node, relative to the content root: the segments
/// joined, after the base directory and a slash when the base is not the
/// root itself.
pub open spec fn link_path(base: Seq<char>, node: Seq<Seq<char>>) -> Seq<char> {
    if base.len() == 0 {
        joined(node, '/')
    } else {
        base.push('/') + joined(node, '/')
    }
}

/// Backslashes written as forward slashes.
pub open spec fn forward_slashes(s: Seq<char>) -> Seq<char> {
    s.map_values(|c: char| if c == '\\' { '/' } else { c })
}

pub open spec fn spaces(n: nat) -> Seq<char> {
    Seq::new(n, |i: int| ' ')
}

/// `<indent>- [<segment>](<encoded link>)` and a line break; four spaces of
/// indent per level below the top.
pub open spec fn toc_line(base: Seq<char>, node: Seq<Seq<char>>) -> Seq<char> {
    spaces((4 * (node.len() - 1)) as nat) + seq!['-', ' ', '['] + node.last() + seq![']', '(']
        + pct_encoded(vstd::utf8::encode_utf8(forward_slashes(link_path(base, node))))
        + seq![')', '\n']
}

pub open spec fn toc_lines(base: Seq<char>, nodes: Seq<Seq<Seq<char>>>) -> Seq<char>
    decreases nodes.len(),
{
    if nodes.len() == 0 {
        Seq::empty()
    } else {
        toc_lines(base, nodes.drop_last()) + toc_line(base, nodes.last())
    }
}

pub open spec fn default_title() -> Seq<char> {
    seq!['t', 'o', 'c']
}

/// A level-one heading and an empty line, then one line per node.
pub open spec fn toc_document(
    base: Seq<char>,
    title: Option<Seq<char>>,
    nodes: Seq<Seq<Seq<char>>>,
) -> Seq<char> {
    seq!['#', ' '] + match title {
        Some(t) => t,
        None => default_title(),
    } + seq!['\n', '\n'] + toc_lines(base, nodes)
}

fn forward_slashes_of(s: &str) -> (r: String)
    ensures
        r@ == forward_slashes(s@),
{
    let n = s.unicode_len();
    let mut out = String::new();
    let mut i: usize = 0;
    while i < n
        invariant
            n == s@.len(),
            i <= n,
            out@ == forward_slashes(s@.subrange(0, i as int)),
        decreases n - i,
    {
        let c = s.get_char(i);
        push_char(&mut out, if c == '\\' { '/' } else { c });
        assert(s@.subrange(0, i + 1) =~= s@.subrange(0, i as int).push(c));
        assert(forward_slashes(s@.subrange(0, i + 1)) =~= forward_slashes(s@.subrange(0, i as int)).push(
            if c == '\\' { '/' } else { c },
        ));
        i = i + 1;
    }
    assert(s@.subrange(0, n as int) =~= s@);
    out
}

fn push_toc_line(out: &mut String, base: &str, node: &Vec<String>)
    requires
        node@.len() > 0,
    ensures
        final(out)@ == old(out)@ + toc_line(base@, views(node@)),
{
    let ghost start = out@;
    let depth = node.len() - 1;
    let mut d: usize = 0;
    while d < depth
        invariant
            d <= depth,
            out@ == start + spaces((4 * d) as nat),
        decreases depth - d,
    {
        proof {
            reveal_strlit("    ");
        }
        push_str(out, "    ");
        assert(spaces((4 * (d + 1)) as nat) =~= spaces((4 * d) as nat) + "    "@);
        d = d + 1;
    }
    proof {
        reveal_strlit("- [");
        reveal_strlit("](");
        reveal_strlit(")\n");
    }
    push_str(out, "- [");
    push_str(out, node[depth].as_str());
    push_str(out, "](");
    let mut link = to_owned_base(base);
    if base.unicode_len() > 0 {
        push_char(&mut link, '/');
    }
    let joined_segs = join_with(node, '/');
    push_str(&mut link, joined_segs.as_str());
    let fixed = forward_slashes_of(link.as_str());
    let encoded = percent_encode_path(fixed.as_str());
    push_str(out, encoded.as_str());
    push_str(out, ")\n");
    assert(views(node@).last() == node@[depth as int]@);
    assert(out@ =~= start + toc_line(base@, views(node@)));
}

fn to_owned_base(base: &str) -> (r: String)
    ensures
        r@ == base@,
{
    crate::text::to_owned_string(base)
}

impl TocTree {
    /// Appends one line per node, in order.
    pub fn emit(&self, base: &str, out: &mut String)
        requires
            self.wf(),
        ensures
            final(out)@ == old(out)@ + toc_lines(base@, self.view()),
    {
        let ghost start = out@;
        let mut i: usize = 0;
        while i < self.nodes.len()
            invariant
                self.wf(),
                i <= self.nodes@.len(),
                out@ == start + toc_lines(base@, self.view().subrange(0, i as int)),
            decreases self.nodes@.len() - i,
        {
            assert(self.view()[i as int] == views(self.nodes@[i as int]@));
            assert(self.view()[i as int].len() > 0);
            push_toc_line(out, base, &self.nodes[i]);
            assert(self.view().subrange(0, i + 1).drop_last() =~= self.view().subrange(0, i as int));
            i = i + 1;
        }
        assert(self.view().subrange(0, self.nodes@.len() as int) =~= self.view());
    }
}

} // verus!

verus! {

// ----- selection of entries and the whole document -----

/// The file name ends with `.` and one of the allowed extensions.
pub open spec fn has_allowed_ext(name: Seq<char>, exts: Seq<Seq<char>>) -> bool {
    exists|i: int| 0 <= i < exts.len() && has_suffix(name, seq!['.'] + exts[i])
}

/// The relative path holds one of the ignore substrings.
pub open spec fn is_ignored(rel: Seq<char>, ignores: Seq<Seq<char>>) -> bool {
    exists|i: int| 0 <= i < ignores.len() && has_substring(rel, ignores[i])
}

/// An entry (its segments below the listed directory) is listed.
pub open spec fn selected(
    entry: Seq<Seq<char>>,
    exts: Seq<Seq<char>>,
    ignores: Seq<Seq<char>>,
) -> bool {
    &&& entry.len() > 0
    &&& has_allowed_ext(entry.last(), exts)
    &&& !is_ignored(joined(entry, '/'), ignores)
}

/// The listed entries among `entries`.
pub open spec fn selected_paths(
    entries: Seq<Seq<Seq<char>>>,
    exts: Seq<Seq<char>>,
    ignores: Seq<Seq<char>>,
) -> Set<Seq<Seq<char>>> {
    Set::new(
        |p: Seq<Seq<char>>|
            exists|i: int| 0 <= i < entries.len() && entries[i] == p && selected(p, exts, ignores),
    )
}

/// The TOC document of a directory.
pub open spec fn toc_of(
    base: Seq<char>,
    title: Option<Seq<char>>,
    entries: Seq<Seq<Seq<char>>>,
    exts: Seq<Seq<char>>,
    ignores: Seq<Seq<char>>,
) -> Seq<char> {
    toc_document(base, title, in_toc_order(tree_nodes(selected_paths(entries, exts, ignores))))
}

pub open spec fn entry_views(entries: Seq<Vec<String>>) -> Seq<Seq<Seq<char>>> {
    entries.map_values(|e: Vec<String>| views(e@))
}

pub open spec fn opt_view(t: Option<String>) -> Option<Seq<char>> {
    match t {
        Some(s) => Some(s@),
        None => None,
    }
}

fn has_allowed_extension(name: &str, exts: &Vec<String>) -> (r: bool)
    ensures
        r == has_allowed_ext(name@, views(exts@)),
{
    let mut i: usize = 0;
    while i < exts.len()
        invariant
            i <= exts@.len(),
            forall|k: int| 0 <= k < i ==> !has_suffix(name@, seq!['.'] + #[trigger] views(exts@)[k]),
        decreases exts@.len() - i,
    {
        let mut dotted = String::new();
        push_char(&mut dotted, '.');
        push_str(&mut dotted, exts[i].as_str());
        assert(dotted@ =~= seq!['.'] + views(exts@)[i as int]);
        if ends_with_str(name, dotted.as_str()) {
            return true;
        }
        i = i + 1;
    }
    false
}

fn is_ignored_path(rel: &str, ignores: &Vec<String>) -> (r: bool)
    ensures
        r == is_ignored(rel@, views(ignores@)),
{
    let mut i: usize = 0;
    while i < ignores.len()
        invariant
            i <= ignores@.len(),
            forall|k: int| 0 <= k < i ==> !has_substring(rel@, #[trigger] views(ignores@)[k]),
        decreases ignores@.len() - i,
    {
        assert(views(ignores@)[i as int] == ignores@[i as int]@);
        if contains_str(rel, ignores[i].as_str()) {
            return true;
        }
        i = i + 1;
    }
    false
}

/// Whether an entry belongs in the TOC: an allowed extension and no ignore
/// substring in its relative path.
pub fn is_selected(entry: &Vec<String>, exts: &Vec<String>, ignores: &Vec<String>) -> (r: bool)
    ensures
        r == selected(views(entry@), views(exts@), views(ignores@)),
{
    if entry.len() == 0 {
        return false;
    }
    assert(views(entry@).last() == entry@[entry@.len() - 1]@);
    if !has_allowed_extension(entry[entry.len() - 1].as_str(), exts) {
        return false;
    }
    let rel = join_with(entry, '/');
    !is_ignored_path(rel.as_str(), ignores)
}

proof fn lemma_tree_nodes_insert(s: Set<Seq<Seq<char>>>, p: Seq<Seq<char>>)
    ensures
        tree_nodes(s.insert(p)) == tree_nodes(s).union(prefixes(p)),
{
    assert forall|q| tree_nodes(s.insert(p)).contains(q) <==> tree_nodes(s).union(prefixes(p)).contains(q) by {
        if tree_nodes(s.insert(p)).contains(q) {
            let w = choose|w: Seq<Seq<char>>| s.insert(p).contains(w) && prefixes(w).contains(q);
            if w != p {
                assert(s.contains(w));
            }
        }
        if tree_nodes(s).contains(q) {
            let w = choose|w: Seq<Seq<char>>| s.contains(w) && prefixes(w).contains(q);
            assert(s.insert(p).contains(w));
        }
        if prefixes(p).contains(q) {
            assert(s.insert(p).contains(p));
        }
    }
    assert(tree_nodes(s.insert(p)) =~= tree_nodes(s).union(prefixes(p)));
}

/// Builds the TOC document of a directory from its entries, each given as its
/// path segments below the directory. `base` is the directory's path relative
/// to the content root; the title defaults to `toc`. Lines come in
/// depth-first alphabetical order whatever the order of `entries`.
pub fn generate_toc(
    base: &str,
    entries: &Vec<Vec<String>>,
    exts: &Vec<String>,
    ignores: &Vec<String>,
    title: Option<String>,
) -> (r: String)
    ensures
        r@ == toc_of(base@, opt_view(title), entry_views(entries@), views(exts@), views(ignores@)),
        sorted_paths(in_toc_order(tree_nodes(selected_paths(entry_views(entries@), views(exts@), views(ignores@))))),
        in_toc_order(tree_nodes(selected_paths(entry_views(entries@), views(exts@), views(ignores@)))).to_set()
            == tree_nodes(selected_paths(entry_views(entries@), views(exts@), views(ignores@))),
{
    let ghost ev = entry_views(entries@);
    let ghost xs = views(exts@);
    let ghost igs = views(ignores@);
    let mut tree = TocTree::new();
    let mut i: usize = 0;
    assert(tree.view().to_set() =~= tree_nodes(selected_paths(ev.subrange(0, 0), xs, igs)));
    while i < entries.len()
        invariant
            ev == entry_views(entries@),
            xs == views(exts@),
            igs == views(ignores@),
            i <= entries@.len(),
            tree.wf(),
            tree.view().to_set() == tree_nodes(selected_paths(ev.subrange(0, i as int), xs, igs)),
        decreases entries@.len() - i,
    {
        let ghost pre = selected_paths(ev.subrange(0, i as int), xs, igs);
        let ghost post = selected_paths(ev.subrange(0, i + 1), xs, igs);
        assert(ev[i as int] == views(entries@[i as int]@));
        if is_selected(&entries[i], exts, ignores) {
            tree.insert_path(&entries[i]);
            proof {
                assert(post =~= pre.insert(ev[i as int])) by {
                    assert forall|p| post.contains(p) <==> pre.insert(ev[i as int]).contains(p) by {
                        if post.contains(p) {
                            let j = choose|j: int| 0 <= j < i + 1 && #[trigger] ev.subrange(0, i + 1)[j] == p && selected(p, xs, igs);
                            if j < i {
                                assert(ev.subrange(0, i as int)[j] == p);
                            }
                        }
                        if pre.contains(p) {
                            let j = choose|j: int| 0 <= j < i && #[trigger] ev.subrange(0, i as int)[j] == p && selected(p, xs, igs);
                            assert(ev.subrange(0, i + 1)[j] == p);
                        }
                        if p == ev[i as int] {
                            assert(ev.subrange(0, i + 1)[i as int] == p);
                        }
                    }
                }
                lemma_tree_nodes_insert(pre, ev[i as int]);
            }
        } else {
            proof {
                assert(post =~= pre) by {
                    assert forall|p| post.contains(p) <==> pre.contains(p) by {
                        if post.contains(p) {
                            let j = choose|j: int| 0 <= j < i + 1 && #[trigger] ev.subrange(0, i + 1)[j] == p && selected(p, xs, igs);
                            if j < i {
                                assert(ev.subrange(0, i as int)[j] == p);
                            }
                        }
                        if pre.contains(p) {
                            let j = choose|j: int| 0 <= j < i && #[trigger] ev.subrange(0, i as int)[j] == p && selected(p, xs, igs);
                            assert(ev.subrange(0, i + 1)[j] == p);
                        }
                    }
                }
            }
        }
        i = i + 1;
    }
    assert(ev.subrange(0, entries@.len() as int) =~= ev);
    let ghost nodes = tree_nodes(selected_paths(ev, xs, igs));
    proof {
        let order = in_toc_order(nodes);
        assert(sorted_paths(tree.view()) && tree.view().to_set() == nodes);
        lemma_sorted_unique(order, tree.view());
    }
    let mut out = String::new();
    proof {
        reveal_strlit("# ");
        reveal_strlit("toc");
        reveal_strlit("\n\n");
    }
    push_str(&mut out, "# ");
    match &title {
        Some(t) => push_str(&mut out, t.as_str()),
        None => push_str(&mut out, "toc"),
    }
    push_str(&mut out, "\n\n");
    tree.emit(base, &mut out);
    assert(out@ =~= toc_of(base@, opt_view(title), ev, xs, igs));
    out
}

/// The TOC does not depend on the order in which the directory walk hands
/// over its entries: entry lists with the same members give the same document.
pub proof fn lemma_toc_order_independent(
    base: Seq<char>,
    title: Option<Seq<char>>,
    a: Seq<Seq<Seq<char>>>,
    b: Seq<Seq<Seq<char>>>,
    exts: Seq<Seq<char>>,
    ignores: Seq<Seq<char>>,
)
    requires
        a.to_set() == b.to_set(),
    ensures
        toc_of(base, title, a, exts, ignores) == toc_of(base, title, b, exts, ignores),
{
    assert forall|p| selected_paths(a, exts, ignores).contains(p) <==> selected_paths(b, exts, ignores).contains(p) by {
        if selected_paths(a, exts, ignores).contains(p) {
            let i = choose|i: int| 0 <= i < a.len() && a[i] == p && selected(p, exts, ignores);
            assert(a.to_set().contains(p));
            assert(b.to_set().contains(p));
        }
        if selected_paths(b, exts, ignores).contains(p) {
            let i = choose|i: int| 0 <= i < b.len() && b[i] == p && selected(p, exts, ignores);
            assert(b.to_set().contains(p));
            assert(a.to_set().contains(p));
        }
    }
    assert(selected_paths(a, exts, ignores) =~= selected_paths(b, exts, ignores));
}

} // verus!

verus! {

/// Glob that the directory walk uses to find TOC candidates:
/// `**/*.{<ext>,<ext>,...}`.
pub fn toc_glob_pattern(exts: &Vec<String>) -> (r: String)
    ensures
        r@ == "**/*.{"@ + joined(views(exts@), ',') + "}"@,
{
    let mut out = crate::text::to_owned_string("**/*.{");
    let list = join_with(exts, ',');
    push_str(&mut out, list.as_str());
    push_str(&mut out, "}");
    out
}

} // verus!
