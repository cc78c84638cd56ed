//! A small BER-TLV reader for EMV and travel-document templates: it locates and extracts,
//! it does not check the full semantics.
use vstd::prelude::*;
use crate::hexfmt::{encode_upper, hex_upper};
use crate::text::str_eq;

verus! {

/// One TLV node.
#[derive(Debug)]
pub struct Tlv {
    /// The tag in upper-case hexadecimal, such as `"57"`, `"9F38"` or `"BF0C"`.
    pub tag: String,
    /// The value bytes.
    pub value: Vec<u8>,
    /// The nodes inside a constructed tag (bit 6 of the first tag byte set).
    pub children: Vec<Tlv>,
}

/// Where a multi-byte tag ends, scanning its subsequent bytes from `j`: after the first one
/// whose high bit is clear, or at the end of the data.
pub open spec fn tag_tail_end(b: Seq<u8>, j: int) -> int
    decreases b.len() - j,
{
    if j < 0 || j >= b.len() {
        j
    } else if b[j] & 0x80 == 0 {
        j + 1
    } else {
        tag_tail_end(b, j + 1)
    }
}

/// Where the tag starting at `i` ends.
pub open spec fn tag_end(b: Seq<u8>, i: int) -> int {
    if b[i] & 0x1F == 0x1F {
        tag_tail_end(b, i + 1)
    } else {
        i + 1
    }
}

/// The long-form length: up to `cnt` more bytes from `k`, big-endian, as far as the data goes
/// (wrapping as `usize` does); the value and where it ends.
pub open spec fn long_len(b: Seq<u8>, k: int, cnt: nat, acc: int) -> (int, int)
    decreases cnt,
{
    if cnt == 0 || k < 0 || k >= b.len() {
        (acc, k)
    } else {
        long_len(b, k + 1, (cnt - 1) as nat, ((acc * 256 + b[k]) as usize) as int)
    }
}

/// The length at `j` and where it ends: one byte, or `8n` followed by `n` bytes.
pub open spec fn len_at(b: Seq<u8>, j: int) -> (int, int) {
    if b[j] & 0x80 == 0 {
        (b[j] as int, j + 1)
    } else {
        long_len(b, j + 1, (b[j] & 0x7F) as nat, 0)
    }
}

/// `nodes` is what parsing `b` from position `i` gives: padding bytes `00` and `FF` are
/// skipped; each node is a tag, a length and a value cut at the end of the data, and a
/// constructed node holds the nodes of its value; parsing stops where no length follows a tag.
pub open spec fn parsed_from(b: Seq<u8>, i: int, nodes: Seq<Tlv>) -> bool
    decreases b.len(), b.len() - i,
{
    if i < 0 || i >= b.len() {
        nodes.len() == 0
    } else if b[i] == 0x00 || b[i] == 0xFF {
        parsed_from(b, i + 1, nodes)
    } else {
        let j = tag_end(b, i);
        if j >= b.len() || j <= i {
            nodes.len() == 0
        } else {
            let (l, k) = len_at(b, j);
            let end = if l > b.len() - k { b.len() as int } else { k + l };
            if k > b.len() || k <= j || end < k {
                false
            } else {
                let value = b.subrange(k, end);
                &&& nodes.len() >= 1
                &&& nodes[0].tag@ == hex_upper(b.subrange(i, j))
                &&& nodes[0].value@ == value
                &&& if b[i] & 0x20 != 0 {
                    value.len() < b.len() && parsed_from(value, 0, nodes[0].children@)
                } else {
                    nodes[0].children@.len() == 0
                }
                &&& parsed_from(b, end, nodes.drop_first())
            }
        }
    }
}

proof fn lemma_tag_tail(b: Seq<u8>, j: int)
    requires
        0 <= j,
    ensures
        j <= tag_tail_end(b, j) <= if j <= b.len() { b.len() as int } else { j },
    decreases b.len() - j,
{
    if j < b.len() && b[j] & 0x80 != 0 {
        lemma_tag_tail(b, j + 1);
    }
}

proof fn lemma_long_len(b: Seq<u8>, k: int, cnt: nat, acc: int)
    requires
        0 <= k <= b.len(),
        0 <= acc <= usize::MAX,
    ensures
        k <= long_len(b, k, cnt, acc).1 <= b.len(),
        0 <= long_len(b, k, cnt, acc).0 <= usize::MAX,
    decreases cnt,
{
    if cnt > 0 && k < b.len() {
        lemma_long_len(b, k + 1, (cnt - 1) as nat, ((acc * 256 + b[k]) as usize) as int);
    }
}

/// Parses bytes into the TLV nodes of one level (`parsed_from` from the start).
pub fn parse(bytes: &[u8]) -> (res: Vec<Tlv>)
    ensures
        parsed_from(bytes@, 0, res@),
    decreases bytes@.len(),
{
    let n = bytes.len();
    let mut out: Vec<Tlv> = Vec::new();
    let mut i: usize = 0;
    let ghost b = bytes@;
    while i < n
        invariant
            n == b.len(),
            b == bytes@,
            i <= n,
            forall|t: Seq<Tlv>| #[trigger] parsed_from(b, 0, out@ + t) <==> parsed_from(b, i as int, t),
        decreases n - i,
    {
        let ghost i0 = i as int;
        if bytes[i] == 0x00 || bytes[i] == 0xFF {
            i = i + 1;
            assert forall|t: Seq<Tlv>| #[trigger] parsed_from(b, 0, out@ + t) <==> parsed_from(b, i as int, t) by {
                assert(parsed_from(b, i0, t) == parsed_from(b, i0 + 1, t));
            }
            continue;
        }
        let first = bytes[i];
        let constructed = first & 0x20 != 0;
        let mut tag_bytes: Vec<u8> = vec![first];
        i = i + 1;
        if first & 0x1F == 0x1F {
            let mut done = false;
            while i < n && !done
                invariant
                    n == b.len(),
                    b == bytes@,
                    0 <= i0 < i <= n,
                    tag_bytes@ == b.subrange(i0, i as int),
                    b[i0] & 0x1F == 0x1F,
                    done ==> tag_end(b, i0) == i,
                    !done ==> tag_end(b, i0) == tag_tail_end(b, i as int),
                decreases n - i, (if done { 0int } else { 1int }),
            {
                let bb = bytes[i];
                tag_bytes.push(bb);
                i = i + 1;
                assert(tag_bytes@ =~= b.subrange(i0, i as int));
                if bb & 0x80 == 0 {
                    done = true;
                }
            }
        }
        assert(tag_bytes@ =~= b.subrange(i0, i as int));
        proof {
            if b[i0] & 0x1F == 0x1F {
                lemma_tag_tail(b, i0 + 1);
            }
        }
        assert(tag_end(b, i0) == i);
        if i >= n {
            assert forall|t: Seq<Tlv>| #[trigger] parsed_from(b, 0, out@ + t) <==> parsed_from(b, n as int, t) by {
                assert(parsed_from(b, i0, t) == (t.len() == 0));
            }
            i = n;
            continue;
        }
        let j = i;
        let bj = bytes[i];
        let mut len: usize = bj as usize;
        i = i + 1;
        if len & 0x80 != 0 {
            let num: usize = len & 0x7F;
            assert((bj as usize & 0x80) != 0 ==> (bj as usize & 0x7F) == (bj & 0x7F) as usize) by (bit_vector);
            len = 0;
            let mut c: usize = 0;
            let mut stop = false;
            while c < num && !stop
                invariant
                    n == b.len(),
                    b == bytes@,
                    j < i <= n,
                    c <= num,
                    long_len(b, j + 1, (b[j as int] & 0x7F) as nat, 0) == if stop {
                        (len as int, i as int)
                    } else {
                        long_len(b, i as int, (num - c) as nat, len as int)
                    },
                    num == (b[j as int] & 0x7F) as nat,
                decreases num - c, (if stop { 0int } else { 1int }),
            {
                if i >= n {
                    stop = true;
                } else {
                    let bi = bytes[i];
                    let v = (len << 8) | (bi as usize);
                    assert(v == ((len as int) * 256 + bi) as usize) by (bit_vector)
                        requires
                            v == (len << 8) | (bi as usize),
                    ;
                    len = v;
                    i = i + 1;
                    c = c + 1;
                }
            }
            proof {
                lemma_long_len(b, j + 1, (b[j as int] & 0x7F) as nat, 0);
            }
        } else {
            assert((bj as usize & 0x80) == 0 ==> (bj & 0x80) == 0) by (bit_vector);
        }
        assert(len_at(b, j as int) == (len as int, i as int));
        let end = if len > n - i { n } else { i + len };
        let value = vstd::slice::slice_to_vec(vstd::slice::slice_subrange(bytes, i, end));
        let children = if constructed {
            parse(value.as_slice())
        } else {
            Vec::new()
        };
        let node = Tlv { tag: encode_upper(tag_bytes.as_slice()), value, children };
        let ghost old_out = out@;
        out.push(node);
        i = end;
        assert forall|t: Seq<Tlv>| #[trigger] parsed_from(b, 0, out@ + t) <==> parsed_from(b, i as int, t) by {
            let nt = seq![node] + t;
            assert(old_out + nt =~= out@ + t);
            assert(nt[0] == node);
            assert(nt.drop_first() =~= t);
            assert(parsed_from(b, 0, old_out + nt) <==> parsed_from(b, i0, nt));
        }
    }
    assert(parsed_from(b, 0, out@ + Seq::<Tlv>::empty()) <==> parsed_from(b, i as int, Seq::<Tlv>::empty()));
    assert(out@ + Seq::<Tlv>::empty() =~= out@);
    out
}

/// The first node with `tag`, depth first in order: a node before its children, its children
/// before the nodes after it.
pub open spec fn find_spec(nodes: Seq<Tlv>, tag: Seq<char>) -> Option<Tlv>
    decreases nodes,
{
    if nodes.len() == 0 {
        None
    } else if nodes[0].tag@ == tag {
        Some(nodes[0])
    } else {
        match find_spec(nodes[0].children@, tag) {
            Some(t) => Some(t),
            None => find_spec(nodes.drop_first(), tag),
        }
    }
}

/// Finds, depth first, the first node with the given tag.
pub fn find<'a>(nodes: &'a [Tlv], tag: &str) -> (res: Option<&'a Tlv>)
    ensures
        match res {
            Some(t) => find_spec(nodes@, tag@) == Some(*t),
            None => find_spec(nodes@, tag@) is None,
        },
    decreases nodes@,
{
    let n = nodes.len();
    let mut i: usize = 0;
    assert(nodes@.subrange(0, n as int) =~= nodes@);
    while i < n
        invariant
            n == nodes@.len(),
            i <= n,
            find_spec(nodes@, tag@) == find_spec(nodes@.subrange(i as int, n as int), tag@),
        decreases n - i,
    {
        let node = &nodes[i];
        let ghost rest = nodes@.subrange(i as int, n as int);
        assert(rest[0] == nodes@[i as int]);
        if str_eq(node.tag.as_str(), tag) {
            return Some(node);
        }
        assert(decreases_to!(nodes@ => nodes@[i as int]));
        let found = find(node.children.as_slice(), tag);
        assert(rest.drop_first() =~= nodes@.subrange(i + 1, n as int));
        if found.is_some() {
            return found;
        }
        i = i + 1;
    }
    assert(nodes@.subrange(n as int, n as int).len() == 0);
    None
}

} // verus!
