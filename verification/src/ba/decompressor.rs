use vstd::prelude::*;
use crate::ba::stream::{Stream, bits_of};
use vstd::slice::slice_subrange;

verus! {

// ---------------------------------------------------------------------------
// Mathematical model of the compressed format.
//
// Layout of the data:
//   bytes 0..2   frame count, big endian
//   bytes 2..6   size of the decoded buffer, big endian
//   byte  6      number of code words
//   then, for each code word: its label byte, its length in bits `l`, and
//     (l + 7) / 8 bytes that hold the code bits, least significant bit first
//   then the payload bits, least significant bit first.
// The payload is decoded greedily: each symbol is the label of the shortest
// nonempty code word that starts the remaining bits.
// ---------------------------------------------------------------------------

/// The big-endian value of a byte sequence.
pub open spec fn be_value(s: Seq<u8>) -> nat
    decreases s.len(),
{
    if s.len() == 0 {
        0
    } else {
        be_value(s.drop_last()) * 256 + s.last() as nat
    }
}

/// Parses `n` code words starting at offset `o`, adding each to `table`
/// (a later code word with the same bits replaces an earlier one).
/// Gives the table and the offset after the last code word, or `None`
/// where the data ends too early.
pub open spec fn parse_keys(b: Seq<u8>, o: int, n: nat, table: Map<Seq<u8>, u8>) -> Option<
    (Map<Seq<u8>, u8>, int),
>
    decreases n,
{
    if n == 0 {
        Some((table, o))
    } else if o + 2 > b.len() {
        None
    } else {
        let l = b[o + 1] as int;
        let nb = (l + 7) / 8;
        if o + 2 + nb > b.len() {
            None
        } else {
            let code = bits_of(b.subrange(o + 2, o + 2 + nb)).take(l);
            parse_keys(b, o + 2 + nb, (n - 1) as nat, table.insert(code, b[o]))
        }
    }
}

/// The symbol that starts at bit `start`: the label of the shortest code word
/// of length at least `len` that starts there, with the position after it.
pub open spec fn decode_one(table: Map<Seq<u8>, u8>, bits: Seq<u8>, start: int, len: int) -> Option<
    (u8, int),
>
    decreases bits.len() - start - len,
{
    if len < 0 || start < 0 || start + len > bits.len() {
        None
    } else if table.dom().contains(bits.subrange(start, start + len)) {
        Some((table[bits.subrange(start, start + len)], start + len))
    } else if start + len == bits.len() {
        None
    } else {
        decode_one(table, bits, start, len + 1)
    }
}

/// Appends to `acc` the next `n` symbols decoded from `bits` at `pos`.
pub open spec fn decode_acc(
    table: Map<Seq<u8>, u8>,
    bits: Seq<u8>,
    pos: int,
    n: nat,
    acc: Seq<u8>,
) -> Option<Seq<u8>>
    decreases n,
{
    if n == 0 {
        Some(acc)
    } else {
        match decode_one(table, bits, pos, 1) {
            None => None,
            Some(r) => decode_acc(table, bits, r.1, (n - 1) as nat, acc.push(r.0)),
        }
    }
}

/// The position after the next `n` symbols decoded from `bits` at `pos`
/// (or where decoding stops).
pub open spec fn decode_end(table: Map<Seq<u8>, u8>, bits: Seq<u8>, pos: int, n: nat) -> int
    decreases n,
{
    if n == 0 {
        pos
    } else {
        match decode_one(table, bits, pos, 1) {
            None => pos,
            Some(r) => decode_end(table, bits, r.1, (n - 1) as nat),
        }
    }
}

/// The number of payload bits that decoding the data leaves unread.
pub open spec fn decompress_rest(b: Seq<u8>) -> int {
    match parse_keys(b, 7, b[6] as nat, Map::empty()) {
        None => 0,
        Some(k) => {
            let bits = bits_of(b.subrange(k.1, b.len() as int));
            bits.len() - decode_end(k.0, bits, 0, be_value(b.subrange(2, 6)))
        },
    }
}

/// What the data decodes to: the frame count and the decoded buffer, or
/// `None` for data that is not well formed.
pub open spec fn decompress_spec(b: Seq<u8>) -> Option<(nat, Seq<u8>)> {
    if b.len() < 7 {
        None
    } else {
        match parse_keys(b, 7, b[6] as nat, Map::empty()) {
            None => None,
            Some(k) => match decode_acc(
                k.0,
                bits_of(b.subrange(k.1, b.len() as int)),
                0,
                be_value(b.subrange(2, 6)),
                Seq::empty(),
            ) {
                None => None,
                Some(buf) => Some((be_value(b.subrange(0, 2)), buf)),
            },
        }
    }
}

// ---------------------------------------------------------------------------
// The binary trie of code words.
// ---------------------------------------------------------------------------

pub struct TrieNode {
    zero: Option<Box<TrieNode>>,
    one: Option<Box<TrieNode>>,
    label: Option<u8>,
}

impl TrieNode {
    spec fn child(self, b: u8) -> Option<Box<TrieNode>> {
        if b == 0 {
            self.zero
        } else if b == 1 {
            self.one
        } else {
            None
        }
    }

    /// The node reached along `path` (each step 0 or 1).
    spec fn sub(self, path: Seq<u8>) -> Option<TrieNode>
        decreases path.len(),
    {
        if path.len() == 0 {
            Some(self)
        } else {
            match self.child(path[0]) {
                Some(c) => (*c).sub(path.drop_first()),
                None => None,
            }
        }
    }

    spec fn lookup(self, path: Seq<u8>) -> Option<u8> {
        match self.sub(path) {
            Some(n) => n.label,
            None => None,
        }
    }
}

impl View for TrieNode {
    type V = Map<Seq<u8>, u8>;

    /// The code words stored in the trie, with their labels.
    closed spec fn view(&self) -> Map<Seq<u8>, u8> {
        Map::new(|p: Seq<u8>| self.lookup(p) is Some, |p: Seq<u8>| self.lookup(p).unwrap())
    }
}

proof fn lemma_view_lookup(n: TrieNode, p: Seq<u8>)
    ensures
        n@.dom().contains(p) <==> n.lookup(p) is Some,
        n.lookup(p) is Some ==> n@[p] == n.lookup(p).unwrap(),
{
}

proof fn lemma_sub_push(n: TrieNode, p: Seq<u8>, b: u8)
    ensures
        n.sub(p.push(b)) == (match n.sub(p) {
            Some(m) => match m.child(b) {
                Some(c) => Some(*c),
                None => None,
            },
            None => None,
        }),
    decreases p.len(),
{
    if p.len() == 0 {
        assert(p.push(b).drop_first() =~= Seq::<u8>::empty());
        assert(p.push(b)[0] == b);
        match n.child(b) {
            Some(c) => {
                assert((*c).sub(Seq::<u8>::empty()) == Some(*c));
            },
            None => {},
        }
    } else {
        assert(p.push(b)[0] == p[0]);
        assert(p.push(b).drop_first() =~= p.drop_first().push(b));
        match n.child(p[0]) {
            Some(c) => {
                lemma_sub_push(*c, p.drop_first(), b);
            },
            None => {},
        }
    }
}

proof fn lemma_sub_none_extends(n: TrieNode, p: Seq<u8>, q: Seq<u8>)
    requires
        n.sub(p) is None,
    ensures
        n.sub(p + q) is None,
    decreases p.len(),
{
    if p.len() > 0 {
        assert((p + q)[0] == p[0]);
        assert((p + q).drop_first() =~= p.drop_first() + q);
        match n.child(p[0]) {
            Some(c) => {
                lemma_sub_none_extends(*c, p.drop_first(), q);
            },
            None => {},
        }
    }
}

proof fn lemma_decode_one_none(table: Map<Seq<u8>, u8>, bits: Seq<u8>, start: int, len: int)
    requires
        len >= 0,
        0 <= start,
        forall|l: int|
            len <= l && start + l <= bits.len() ==> !table.dom().contains(
                #[trigger] bits.subrange(start, start + l),
            ),
    ensures
        decode_one(table, bits, start, len) is None,
    decreases bits.len() - start - len,
{
    if start + len < bits.len() {
        assert(!table.dom().contains(bits.subrange(start, start + len)));
        lemma_decode_one_none(table, bits, start, len + 1);
    }
}

impl TrieNode {
    pub fn new() -> (t: TrieNode)
        ensures
            t@ == Map::<Seq<u8>, u8>::empty(),
    {
        let t = TrieNode { zero: None, one: None, label: None };
        proof {
            assert forall|p: Seq<u8>| t.lookup(p) is None by {
                if p.len() > 0 {
                    assert(t.child(p[0]) is None);
                }
            }
            assert(t@ =~= Map::<Seq<u8>, u8>::empty());
        }
        t
    }

    /// Stores `label` under the code word `data` (whose elements are bits).
    pub fn insert(&mut self, data: &[u8], label: u8)
        requires
            forall|i: int| 0 <= i < data@.len() ==> data@[i] <= 1,
        ensures
            final(self)@ == old(self)@.insert(data@, label),
    {
        self.insert_from(data, 0, label);
        proof {
            assert(data@.subrange(0, data@.len() as int) =~= data@);
            assert forall|p: Seq<u8>| #![auto]
                final(self)@.dom().contains(p) == old(self)@.insert(data@, label).dom().contains(p)
                by {
                lemma_view_lookup(*final(self), p);
                lemma_view_lookup(*old(self), p);
            }
            assert forall|p: Seq<u8>| #![auto] final(self)@.dom().contains(p) implies final(self)@[p]
                == old(self)@.insert(data@, label)[p] by {
                lemma_view_lookup(*final(self), p);
                lemma_view_lookup(*old(self), p);
            }
            assert(final(self)@ =~= old(self)@.insert(data@, label));
        }
    }

    fn insert_from(&mut self, data: &[u8], idx: usize, label: u8)
        requires
            idx <= data@.len(),
            forall|i: int| 0 <= i < data@.len() ==> data@[i] <= 1,
        ensures
            forall|p: Seq<u8>| #[trigger]
                final(self).lookup(p) == if p == data@.subrange(idx as int, data@.len() as int) {
                    Some(label)
                } else {
                    old(self).lookup(p)
                },
        decreases data@.len() - idx,
    {
        if idx == data.len() {
            self.label = Some(label);
            proof {
                assert forall|p: Seq<u8>| #[trigger]
                    final(self).lookup(p) == if p == data@.subrange(idx as int, data@.len() as int) {
                        Some(label)
                    } else {
                        old(self).lookup(p)
                    } by {
                    if p.len() == 0 {
                        assert(p =~= data@.subrange(idx as int, data@.len() as int));
                    } else {
                        assert(final(self).child(p[0]) == old(self).child(p[0]));
                    }
                }
            }
        } else {
            let h = data[idx];
            let ghost tail = data@.subrange(idx + 1, data@.len() as int);
            let ghost whole = data@.subrange(idx as int, data@.len() as int);
            assert(whole[0] == h && whole.drop_first() =~= tail);
            let taken = if h == 0 {
                self.zero.take()
            } else {
                self.one.take()
            };
            let ghost old_child = old(self).child(h);
            let mut node = match taken {
                Some(b) => *b,
                None => TrieNode::new(),
            };
            let ghost before = node;
            proof {
                assert forall|q: Seq<u8>| #[trigger]
                    before.lookup(q) == match old_child {
                        Some(c) => (*c).lookup(q),
                        None => None,
                    } by {
                    if old_child is None {
                        lemma_view_lookup(before, q);
                    }
                }
            }
            node.insert_from(data, idx + 1, label);
            if h == 0 {
                self.zero = Some(Box::new(node));
            } else {
                self.one = Some(Box::new(node));
            }
            proof {
                assert forall|p: Seq<u8>| #[trigger]
                    final(self).lookup(p) == if p == whole {
                        Some(label)
                    } else {
                        old(self).lookup(p)
                    } by {
                    if p.len() == 0 {
                        assert(p != whole);
                    } else if p[0] == h {
                        assert(final(self).child(p[0]) == Some(Box::new(node)));
                        assert(final(self).lookup(p) == node.lookup(p.drop_first()));
                        if p == whole {
                            assert(p.drop_first() == tail);
                        } else {
                            assert(p =~= seq![h] + p.drop_first());
                            assert(whole =~= seq![h] + tail);
                            assert(p.drop_first() != tail);
                        }
                    } else {
                        assert(final(self).child(p[0]) == old(self).child(p[0]));
                        assert(p != whole);
                    }
                }
            }
        }
    }
}

/// Decodes the symbol at the reader's position by walking the trie.
fn decode_symbol(root: &TrieNode, reader: &mut Stream) -> (r: Option<u8>)
    requires
        0 <= old(reader).pos() <= old(reader).bits().len(),
    ensures
        final(reader).bits() == old(reader).bits(),
        0 <= final(reader).pos() <= final(reader).bits().len(),
        match decode_one(root@, old(reader).bits(), old(reader).pos(), 1) {
            Some(res) => r == Some(res.0) && final(reader).pos() == res.1,
            None => r is None,
        },
{
    let ghost st = reader.pos();
    let ghost bits = reader.bits();
    let mut node: &TrieNode = root;
    assert(bits.subrange(st, st) =~= Seq::<u8>::empty());
    loop
        invariant
            bits == old(reader).bits(),
            st == old(reader).pos(),
            0 <= st,
            reader.bits() == bits,
            st <= reader.pos() <= bits.len(),
            root.sub(bits.subrange(st, reader.pos())) == Some(*node),
            decode_one(root@, bits, st, 1) == decode_one(root@, bits, st, reader.pos() - st + 1),
        decreases bits.len() - reader.pos(),
    {
        if !reader.has_next() {
            return None;
        }
        let ghost p = reader.pos();
        let b = reader.next_byte();
        let ghost path = bits.subrange(st, p + 1);
        proof {
            assert(path =~= bits.subrange(st, p).push(b));
            lemma_sub_push(*root, bits.subrange(st, p), b);
        }
        let next = if b == 0 {
            &node.zero
        } else {
            &node.one
        };
        match next {
            None => {
                proof {
                    assert(root.sub(path) is None);
                    assert forall|l: int| p + 1 - st <= l && st + l <= bits.len() implies !root@.dom().contains(
                        #[trigger] bits.subrange(st, st + l),
                    ) by {
                        let rest = bits.subrange(p + 1, st + l);
                        lemma_sub_none_extends(*root, path, rest);
                        assert(path + rest =~= bits.subrange(st, st + l));
                        lemma_view_lookup(*root, bits.subrange(st, st + l));
                    }
                    lemma_decode_one_none(root@, bits, st, p + 1 - st);
                }
                return None;
            },
            Some(c) => {
                node = &**c;
                proof {
                    lemma_view_lookup(*root, path);
                }
                match node.label {
                    Some(l) => {
                        return Some(l);
                    },
                    None => {},
                }
            },
        }
    }
}

/// Reads the big-endian number held in `bytes`, modulo 2^32.
pub fn read_u32(bytes: &[u8]) -> (r: u32)
    ensures
        r == be_value(bytes@) % 0x1_0000_0000,
{
    let mut ret: u32 = 0;
    let mut i: usize = 0;
    while i < bytes.len()
        invariant
            i <= bytes@.len(),
            ret == be_value(bytes@.take(i as int)) % 0x1_0000_0000,
        decreases bytes@.len() - i,
    {
        let x = bytes[i];
        proof {
            assert(bytes@.take(i + 1).drop_last() =~= bytes@.take(i as int));
            lemma_shift_in(ret, x, be_value(bytes@.take(i as int)));
        }
        ret = (ret << 8u32) + (x as u32);
        i += 1;
    }
    assert(bytes@.take(i as int) =~= bytes@);
    ret
}

proof fn lemma_shift_in(ret: u32, x: u8, v: nat)
    requires
        ret == v % 0x1_0000_0000,
    ensures
        (ret << 8u32) + x <= u32::MAX,
        (ret << 8u32) + x == (v * 256 + x) % 0x1_0000_0000,
{
    let s = ret << 8u32;
    assert(s == (ret * 256) % 0x1_0000_0000 && s % 256 == 0 && s <= 0xffff_ff00) by (bit_vector)
        requires
            s == ret << 8u32,
    ;
    vstd::arithmetic::div_mod::lemma_mul_mod_noop_left(v as int, 256, 0x1_0000_0000);
    vstd::arithmetic::div_mod::lemma_add_mod_noop((v * 256) as int, x as int, 0x1_0000_0000);
    vstd::arithmetic::div_mod::lemma_small_mod(x as nat, 0x1_0000_0000);
    vstd::arithmetic::div_mod::lemma_small_mod((s + x) as nat, 0x1_0000_0000);
}

/// The result of decompression: the frame count and the decoded buffer.
/// The number of code words and the payload bits left unread are there for
/// the decompressor's report.
pub struct Decompressed {
    pub n_frames: usize,
    pub buf: Vec<u8>,
    pub n_keys: usize,
    pub remain: usize,
}

/// Decompresses the video data; `None` where the data is not well formed.
pub fn decompress(bytes: &[u8]) -> (r: Option<Decompressed>)
    requires
        bytes@.len() * 8 <= usize::MAX,
    ensures
        match decompress_spec(bytes@) {
            None => r is None,
            Some(d) => r is Some && r.unwrap().n_frames == d.0 && r.unwrap().buf@ == d.1,
        },
        r is Some ==> r.unwrap().n_frames < 0x1_0000,
        r is Some ==> r.unwrap().n_keys == bytes@[6],
        r is Some ==> r.unwrap().remain == decompress_rest(bytes@),
{
    if bytes.len() < 7 {
        return None;
    }
    let n_frames = read_u32(slice_subrange(bytes, 0, 2)) as usize;
    let s_buf = read_u32(slice_subrange(bytes, 2, 6)) as usize;
    let n_keys = bytes[6] as usize;
    proof {
        lemma_be_value_len(bytes@.subrange(0, 2));
        lemma_be_value_bound(bytes@.subrange(0, 2));
        lemma_be_value_bound(bytes@.subrange(2, 6));
        vstd::arithmetic::div_mod::lemma_small_mod(
            be_value(bytes@.subrange(0, 2)),
            0x1_0000_0000,
        );
        vstd::arithmetic::div_mod::lemma_small_mod(
            be_value(bytes@.subrange(2, 6)),
            0x1_0000_0000,
        );
    }

    let mut trie = TrieNode::new();
    let mut o: usize = 7;
    let mut k: usize = 0;
    while k < n_keys
        invariant
            7 <= o <= bytes@.len(),
            k <= n_keys,
            n_keys == bytes@[6],
            parse_keys(bytes@, 7, n_keys as nat, Map::empty()) == parse_keys(
                bytes@,
                o as int,
                (n_keys - k) as nat,
                trie@,
            ),
        decreases n_keys - k,
    {
        if bytes.len() - o < 2 {
            return None;
        }
        let len = bytes[o + 1] as usize;
        let nb = (len + 7) / 8;
        if bytes.len() - o - 2 < nb {
            return None;
        }
        let code_bytes = slice_subrange(bytes, o + 2, o + 2 + nb);
        let mut reader = Stream::new(code_bytes);
        let mut data: Vec<u8> = Vec::new();
        let mut i: usize = 0;
        while i < len
            invariant
                i <= len,
                len <= nb * 8,
                reader.bits() == bits_of(code_bytes@),
                bits_of(code_bytes@).len() == nb * 8,
                reader.pos() == i,
                data@ == bits_of(code_bytes@).take(i as int),
                forall|j: int| 0 <= j < data@.len() ==> data@[j] <= 1,
            decreases len - i,
        {
            let bit = reader.next_byte();
            data.push(bit);
            proof {
                assert(data@ =~= bits_of(code_bytes@).take(i + 1));
            }
            i += 1;
        }
        trie.insert(data.as_slice(), bytes[o]);
        o = o + 2 + nb;
        k += 1;
    }

    let payload = slice_subrange(bytes, o, bytes.len());
    let mut reader = Stream::new(payload);
    let ghost table = trie@;
    let ghost bits = bits_of(payload@);
    let mut buf: Vec<u8> = Vec::new();
    let mut i: usize = 0;
    assert(parse_keys(bytes@, o as int, 0, table) == Some((table, o as int)));
    assert(decompress_spec(bytes@) == match decode_acc(table, bits, 0, s_buf as nat, Seq::empty()) {
        None => None,
        Some(b) => Some((n_frames as nat, b)),
    });
    assert(decompress_rest(bytes@) == bits.len() - decode_end(table, bits, 0, s_buf as nat));
    while i < s_buf
        invariant
            i <= s_buf,
            n_frames < 0x1_0000,
            decompress_spec(bytes@) == match decode_acc(table, bits, 0, s_buf as nat, Seq::empty()) {
                None => None,
                Some(b) => Some((n_frames as nat, b)),
            },
            n_keys == bytes@[6],
            bits.len() <= usize::MAX,
            decompress_rest(bytes@) == bits.len() - decode_end(table, bits, 0, s_buf as nat),
            decode_end(table, bits, 0, s_buf as nat) == decode_end(
                table,
                bits,
                reader.pos(),
                (s_buf - i) as nat,
            ),
            trie@ == table,
            reader.bits() == bits,
            0 <= reader.pos() <= bits.len(),
            decode_acc(table, bits, 0, s_buf as nat, Seq::empty()) == decode_acc(
                table,
                bits,
                reader.pos(),
                (s_buf - i) as nat,
                buf@,
            ),
        decreases s_buf - i,
    {
        let ghost p = reader.pos();
        match decode_symbol(&trie, &mut reader) {
            None => {
                assert(decode_one(table, bits, p, 1) is None);
                assert(decode_acc(table, bits, p, (s_buf - i) as nat, buf@) is None);
                return None;
            },
            Some(label) => {
                buf.push(label);
            },
        }
        i += 1;
    }
    let remain = reader.remain();
    Some(Decompressed { n_frames, buf, n_keys, remain })
}

proof fn lemma_be_value_bound(s: Seq<u8>)
    requires
        s.len() <= 4,
    ensures
        be_value(s) < 0x1_0000_0000,
{
    lemma_be_value_len(s);
}

proof fn lemma_be_value_len(s: Seq<u8>)
    ensures
        s.len() == 0 ==> be_value(s) < 1,
        s.len() == 1 ==> be_value(s) < 0x100,
        s.len() == 2 ==> be_value(s) < 0x1_0000,
        s.len() == 3 ==> be_value(s) < 0x100_0000,
        s.len() == 4 ==> be_value(s) < 0x1_0000_0000,
    decreases s.len(),
{
    if s.len() > 0 {
        lemma_be_value_len(s.drop_last());
    }
}

// ---------------------------------------------------------------------------
// Decoding inverts encoding.
// ---------------------------------------------------------------------------

/// No code word is empty and none starts another one.
pub open spec fn prefix_free(table: Map<Seq<u8>, u8>) -> bool {
    &&& forall|k: Seq<u8>| #[trigger] table.dom().contains(k) ==> k.len() > 0
    &&& forall|k1: Seq<u8>, k2: Seq<u8>|
        #[trigger] table.dom().contains(k1) && #[trigger] table.dom().contains(k2) && k1 != k2
            && k1.len() <= k2.len() ==> k2.subrange(0, k1.len() as int) != k1
}

/// The code words `ws` one after the other.
pub open spec fn concat(ws: Seq<Seq<u8>>) -> Seq<u8>
    decreases ws.len(),
{
    if ws.len() == 0 {
        Seq::empty()
    } else {
        ws[0] + concat(ws.drop_first())
    }
}

proof fn lemma_decode_word(
    table: Map<Seq<u8>, u8>,
    bits: Seq<u8>,
    pos: int,
    w: Seq<u8>,
    l: int,
)
    requires
        prefix_free(table),
        table.dom().contains(w),
        0 <= pos,
        pos + w.len() <= bits.len(),
        bits.subrange(pos, pos + w.len()) == w,
        1 <= l <= w.len(),
    ensures
        decode_one(table, bits, pos, l) == Some((table[w], pos + w.len())),
    decreases w.len() - l,
{
    if l < w.len() {
        let p = bits.subrange(pos, pos + l);
        assert(p =~= w.subrange(0, l));
        if table.dom().contains(p) {
            assert(p != w);
            assert(false);
        }
        lemma_decode_word(table, bits, pos, w, l + 1);
    }
}

proof fn lemma_decode_words(
    table: Map<Seq<u8>, u8>,
    bits: Seq<u8>,
    pos: int,
    ws: Seq<Seq<u8>>,
    acc: Seq<u8>,
)
    requires
        prefix_free(table),
        forall|i: int| 0 <= i < ws.len() ==> table.dom().contains(#[trigger] ws[i]),
        0 <= pos,
        pos + concat(ws).len() <= bits.len(),
        bits.subrange(pos, pos + concat(ws).len()) == concat(ws),
    ensures
        decode_acc(table, bits, pos, ws.len(), acc) == Some(acc + ws.map_values(|w: Seq<u8>| table[w])),
    decreases ws.len(),
{
    if ws.len() == 0 {
        assert(acc + ws.map_values(|w: Seq<u8>| table[w]) =~= acc);
    } else {
        let w = ws[0];
        let rest = ws.drop_first();
        let c = concat(ws);
        assert(c == w + concat(rest));
        assert(c.subrange(0, w.len() as int) =~= w);
        assert(c.subrange(w.len() as int, c.len() as int) =~= concat(rest));
        assert(bits.subrange(pos, pos + w.len()) =~= bits.subrange(pos, pos + c.len()).subrange(
            0,
            w.len() as int,
        ));
        assert(bits.subrange(pos + w.len(), pos + c.len()) =~= bits.subrange(
            pos,
            pos + c.len(),
        ).subrange(w.len() as int, c.len() as int));
        assert(table.dom().contains(ws[0]));
        lemma_decode_word(table, bits, pos, w, 1);
        assert forall|i: int| 0 <= i < rest.len() implies table.dom().contains(#[trigger] rest[i]) by {
            assert(rest[i] == ws[i + 1]);
        }
        lemma_decode_words(table, bits, pos + w.len(), rest, acc.push(table[w]));
        assert(acc.push(table[w]) + rest.map_values(|w: Seq<u8>| table[w]) =~= acc + ws.map_values(
            |w: Seq<u8>| table[w],
        ));
    }
}

/// With a prefix-free code, decoding the code words of a message, whatever
/// bits follow them, gives back the message: the label of each word in turn.
pub proof fn lemma_decode_inverts_encode(table: Map<Seq<u8>, u8>, ws: Seq<Seq<u8>>, tail: Seq<u8>)
    requires
        prefix_free(table),
        forall|i: int| 0 <= i < ws.len() ==> table.dom().contains(#[trigger] ws[i]),
    ensures
        decode_acc(table, concat(ws) + tail, 0, ws.len(), Seq::empty()) == Some(
            ws.map_values(|w: Seq<u8>| table[w]),
        ),
{
    let bits = concat(ws) + tail;
    assert(bits.subrange(0, concat(ws).len() as int) =~= concat(ws));
    lemma_decode_words(table, bits, 0, ws, Seq::empty());
    assert(Seq::<u8>::empty() + ws.map_values(|w: Seq<u8>| table[w]) =~= ws.map_values(
        |w: Seq<u8>| table[w],
    ));
}

// ---------------------------------------------------------------------------
// Decompressing compressed data gives back the message.
// ---------------------------------------------------------------------------

/// `n` as two big-endian bytes.
pub open spec fn be16(n: nat) -> Seq<u8> {
    seq![(n / 0x100) as u8, (n % 0x100) as u8]
}

/// `n` as four big-endian bytes.
pub open spec fn be32(n: nat) -> Seq<u8> {
    seq![
        (n / 0x100_0000) as u8,
        ((n / 0x1_0000) % 0x100) as u8,
        ((n / 0x100) % 0x100) as u8,
        (n % 0x100) as u8,
    ]
}

/// `p` holds the bits `c`, the lowest bit of each byte first, in as many
/// bytes as they take (the bits after them are free).
pub open spec fn packs(p: Seq<u8>, c: Seq<u8>) -> bool {
    &&& p.len() == (c.len() + 7) / 8
    &&& bits_of(p).take(c.len() as int) == c
}

/// The records of the code words `keys` (label, code bits), the bits of
/// each held by the same entry of `code_bytes`: label, bit count, bytes.
pub open spec fn key_records(keys: Seq<(u8, Seq<u8>)>, code_bytes: Seq<Seq<u8>>) -> Seq<u8>
    decreases keys.len(),
{
    if keys.len() == 0 || code_bytes.len() == 0 {
        Seq::empty()
    } else {
        seq![keys[0].0, keys[0].1.len() as u8] + code_bytes[0] + key_records(
            keys.drop_first(),
            code_bytes.drop_first(),
        )
    }
}

/// The table that `keys` make when each is stored in turn into `t`.
pub open spec fn store_keys(t: Map<Seq<u8>, u8>, keys: Seq<(u8, Seq<u8>)>) -> Map<Seq<u8>, u8>
    decreases keys.len(),
{
    if keys.len() == 0 {
        t
    } else {
        store_keys(t.insert(keys[0].1, keys[0].0), keys.drop_first())
    }
}

/// Each code word is 1 to 255 bits long and none starts another one.
pub open spec fn keys_ok(keys: Seq<(u8, Seq<u8>)>) -> bool {
    &&& forall|j: int| 0 <= j < keys.len() ==> 1 <= (#[trigger] keys[j]).1.len() <= 255
    &&& forall|j1: int, j2: int|
        0 <= j1 < keys.len() && 0 <= j2 < keys.len() && j1 != j2 && (#[trigger] keys[j1]).1.len()
            <= (#[trigger] keys[j2]).1.len() ==> keys[j2].1.subrange(0, keys[j1].1.len() as int)
            != keys[j1].1
}

/// The compressed form of the message `msg` (indices into `keys`): the
/// frame count, the message length, the code word records, then `payload`,
/// whose bits start with the code words of the message.
pub open spec fn compressed(
    n_frames: nat,
    keys: Seq<(u8, Seq<u8>)>,
    code_bytes: Seq<Seq<u8>>,
    msg: Seq<int>,
    payload: Seq<u8>,
) -> Seq<u8> {
    be16(n_frames) + be32(msg.len()) + seq![keys.len() as u8] + key_records(keys, code_bytes)
        + payload
}

proof fn lemma_byte(x: int)
    requires
        0 <= x < 0x100,
    ensures
        (x as u8) as nat == x,
{
}

proof fn lemma_be16(n: nat)
    requires
        n < 0x1_0000,
    ensures
        be_value(be16(n)) == n,
{
    let s = be16(n);
    let hi = n / 0x100;
    let lo = n % 0x100;
    assert(hi < 0x100 && lo < 0x100 && hi * 0x100 + lo == n) by (nonlinear_arith)
        requires
            n < 0x1_0000,
            hi == n / 0x100,
            lo == n % 0x100,
    ;
    lemma_byte(hi as int);
    lemma_byte(lo as int);
    assert(s.drop_last() =~= seq![hi as u8]);
    assert(s.drop_last().drop_last() =~= Seq::<u8>::empty());
    assert(be_value(s.drop_last().drop_last()) == 0);
    assert(s.drop_last().last() == hi as u8);
    assert(be_value(s.drop_last()) == hi);
    assert(s.last() == lo as u8);
}

proof fn lemma_be32(n: nat)
    requires
        n < 0x1_0000_0000,
    ensures
        be_value(be32(n)) == n,
{
    let s = be32(n);
    let a = n / 0x100_0000;
    let b = (n / 0x1_0000) % 0x100;
    let c = (n / 0x100) % 0x100;
    let d = n % 0x100;
    assert(a < 0x100 && b < 0x100 && c < 0x100 && d < 0x100 && a * 0x100 + b == n / 0x1_0000 && (n
        / 0x1_0000) * 0x100 + c == n / 0x100 && (n / 0x100) * 0x100 + d == n) by (nonlinear_arith)
        requires
            n < 0x1_0000_0000,
            a == n / 0x100_0000,
            b == (n / 0x1_0000) % 0x100,
            c == (n / 0x100) % 0x100,
            d == n % 0x100,
    ;
    lemma_byte(a as int);
    lemma_byte(b as int);
    lemma_byte(c as int);
    lemma_byte(d as int);
    let s3 = s.drop_last();
    let s2 = s3.drop_last();
    let s1 = s2.drop_last();
    assert(s1 =~= seq![a as u8]);
    assert(s1.drop_last() =~= Seq::<u8>::empty());
    assert(be_value(s1.drop_last()) == 0);
    assert(s1.last() == a as u8);
    assert(be_value(s1) == a);
    assert(s2.last() == b as u8);
    assert(be_value(s2) == n / 0x1_0000);
    assert(s3.last() == c as u8);
    assert(be_value(s3) == n / 0x100);
    assert(s.last() == d as u8);
}

proof fn lemma_parse_records(
    b: Seq<u8>,
    o: int,
    keys: Seq<(u8, Seq<u8>)>,
    code_bytes: Seq<Seq<u8>>,
    t: Map<Seq<u8>, u8>,
)
    requires
        0 <= o,
        code_bytes.len() == keys.len(),
        forall|j: int| 0 <= j < keys.len() ==> 1 <= (#[trigger] keys[j]).1.len() <= 255,
        forall|j: int| 0 <= j < keys.len() ==> packs(#[trigger] code_bytes[j], keys[j].1),
        o + key_records(keys, code_bytes).len() <= b.len(),
        b.subrange(o, o + key_records(keys, code_bytes).len()) == key_records(keys, code_bytes),
    ensures
        parse_keys(b, o, keys.len(), t) == Some(
            (store_keys(t, keys), o + key_records(keys, code_bytes).len()),
        ),
    decreases keys.len(),
{
    if keys.len() > 0 {
        let rec = key_records(keys, code_bytes);
        let k0 = keys[0];
        let cb = code_bytes[0];
        let rest = key_records(keys.drop_first(), code_bytes.drop_first());
        assert(rec == seq![k0.0, k0.1.len() as u8] + cb + rest);
        assert(packs(code_bytes[0], keys[0].1));
        let l = k0.1.len();
        assert(b[o] == rec[0] && b[o + 1] == rec[1]);
        assert(rec[1] == l as u8);
        let nb: int = ((l + 7) / 8) as int;
        assert(cb.len() == nb);
        assert(b.subrange(o + 2, o + 2 + nb) =~= rec.subrange(2, 2 + nb));
        assert(rec.subrange(2, 2 + nb) =~= cb);
        assert(b.subrange(o + 2 + nb, o + 2 + nb + rest.len()) =~= rec.subrange(
            2 + nb,
            rec.len() as int,
        ));
        assert(rec.subrange(2 + nb, rec.len() as int) =~= rest);
        assert forall|j: int| 0 <= j < keys.drop_first().len() implies 1 <= (
        #[trigger] keys.drop_first()[j]).1.len() <= 255 by {
            assert(keys.drop_first()[j] == keys[j + 1]);
        }
        assert forall|j: int| 0 <= j < keys.drop_first().len() implies packs(
            #[trigger] code_bytes.drop_first()[j],
            keys.drop_first()[j].1,
        ) by {
            assert(keys.drop_first()[j] == keys[j + 1]);
            assert(code_bytes.drop_first()[j] == code_bytes[j + 1]);
        }
        lemma_parse_records(
            b,
            o + 2 + nb,
            keys.drop_first(),
            code_bytes.drop_first(),
            t.insert(k0.1, k0.0),
        );
    }
}

proof fn lemma_store_keys(t: Map<Seq<u8>, u8>, keys: Seq<(u8, Seq<u8>)>)
    requires
        forall|j1: int, j2: int|
            0 <= j1 < keys.len() && 0 <= j2 < keys.len() && j1 != j2 ==> (#[trigger] keys[j1]).1
                != (#[trigger] keys[j2]).1,
    ensures
        forall|c: Seq<u8>|
            #[trigger] store_keys(t, keys).dom().contains(c) ==> t.dom().contains(c) || exists|j: int|
                0 <= j < keys.len() && (#[trigger] keys[j]).1 == c,
        forall|j: int|
            0 <= j < keys.len() ==> store_keys(t, keys).dom().contains((#[trigger] keys[j]).1)
                && store_keys(t, keys)[keys[j].1] == keys[j].0,
        forall|c: Seq<u8>|
            t.dom().contains(c) && (forall|j: int| 0 <= j < keys.len() ==> (#[trigger] keys[j]).1 != c)
                ==> #[trigger] store_keys(t, keys).dom().contains(c) && store_keys(t, keys)[c] == t[c],
    decreases keys.len(),
{
    if keys.len() > 0 {
        let rest = keys.drop_first();
        let t2 = t.insert(keys[0].1, keys[0].0);
        assert forall|j1: int, j2: int|
            0 <= j1 < rest.len() && 0 <= j2 < rest.len() && j1 != j2 implies (#[trigger] rest[j1]).1
            != (#[trigger] rest[j2]).1 by {
            assert(rest[j1] == keys[j1 + 1] && rest[j2] == keys[j2 + 1]);
        }
        lemma_store_keys(t2, rest);
        let r = store_keys(t, keys);
        assert(r == store_keys(t2, rest));
        assert forall|c: Seq<u8>| #[trigger] r.dom().contains(c) implies t.dom().contains(c)
            || exists|j: int| 0 <= j < keys.len() && (#[trigger] keys[j]).1 == c by {
            if !t.dom().contains(c) && c != keys[0].1 {
                assert(t2.dom().contains(c) || exists|j: int|
                    0 <= j < rest.len() && (#[trigger] rest[j]).1 == c);
                if !t2.dom().contains(c) {
                    let j = choose|j: int| 0 <= j < rest.len() && (#[trigger] rest[j]).1 == c;
                    assert(keys[j + 1] == rest[j]);
                }
            }
        }
        assert forall|j: int| 0 <= j < keys.len() implies r.dom().contains((#[trigger] keys[j]).1)
            && r[keys[j].1] == keys[j].0 by {
            if j == 0 {
                assert forall|i: int| 0 <= i < rest.len() implies (#[trigger] rest[i]).1 != keys[0].1 by {
                    assert(rest[i] == keys[i + 1]);
                }
            } else {
                assert(rest[j - 1] == keys[j]);
            }
        }
        assert forall|c: Seq<u8>|
            t.dom().contains(c) && (forall|j: int| 0 <= j < keys.len() ==> (#[trigger] keys[j]).1 != c)
                implies #[trigger] r.dom().contains(c) && r[c] == t[c] by {
            assert(keys[0].1 != c);
            assert forall|i: int| 0 <= i < rest.len() implies (#[trigger] rest[i]).1 != c by {
                assert(rest[i] == keys[i + 1]);
            }
        }
    }
}

/// The table that well-formed code words make holds each code word with its
/// label, nothing else, and is prefix free.
proof fn lemma_code_table(keys: Seq<(u8, Seq<u8>)>)
    requires
        keys_ok(keys),
    ensures
        prefix_free(store_keys(Map::empty(), keys)),
        forall|j: int|
            0 <= j < keys.len() ==> store_keys(Map::empty(), keys).dom().contains(
                (#[trigger] keys[j]).1,
            ) && store_keys(Map::empty(), keys)[keys[j].1] == keys[j].0,
{
    let table = store_keys(Map::<Seq<u8>, u8>::empty(), keys);
    assert forall|j1: int, j2: int|
        0 <= j1 < keys.len() && 0 <= j2 < keys.len() && j1 != j2 implies (#[trigger] keys[j1]).1
        != (#[trigger] keys[j2]).1 by {
        if keys[j1].1 == keys[j2].1 {
            assert(keys[j2].1.subrange(0, keys[j1].1.len() as int) =~= keys[j1].1);
        }
    }
    lemma_store_keys(Map::empty(), keys);
    assert(prefix_free(table)) by {
        assert forall|k: Seq<u8>| #[trigger] table.dom().contains(k) implies k.len() > 0 by {
            let j = choose|j: int| 0 <= j < keys.len() && (#[trigger] keys[j]).1 == k;
        }
        assert forall|k1: Seq<u8>, k2: Seq<u8>|
            #[trigger] table.dom().contains(k1) && #[trigger] table.dom().contains(k2) && k1 != k2
                && k1.len() <= k2.len() implies k2.subrange(0, k1.len() as int) != k1 by {
            let j1 = choose|j: int| 0 <= j < keys.len() && (#[trigger] keys[j]).1 == k1;
            let j2 = choose|j: int| 0 <= j < keys.len() && (#[trigger] keys[j]).1 == k2;
        }
    }
}

/// Decompressing the compressed form of a message gives back the frame
/// count and the message's labels, whatever bits pad the payload: the code
/// word records are parsed back into the code table, and the payload is
/// decoded with it.
pub proof fn lemma_decompress_inverts_compress(
    n_frames: nat,
    keys: Seq<(u8, Seq<u8>)>,
    code_bytes: Seq<Seq<u8>>,
    msg: Seq<int>,
    payload: Seq<u8>,
)
    requires
        n_frames < 0x1_0000,
        msg.len() < 0x1_0000_0000,
        keys.len() <= 255,
        keys_ok(keys),
        code_bytes.len() == keys.len(),
        forall|j: int| 0 <= j < keys.len() ==> packs(#[trigger] code_bytes[j], keys[j].1),
        forall|i: int| 0 <= i < msg.len() ==> 0 <= #[trigger] msg[i] < keys.len(),
        concat(msg.map_values(|x: int| keys[x].1)).len() <= bits_of(payload).len(),
        bits_of(payload).take(concat(msg.map_values(|x: int| keys[x].1)).len() as int) == concat(
            msg.map_values(|x: int| keys[x].1),
        ),
    ensures
        decompress_spec(compressed(n_frames, keys, code_bytes, msg, payload)) == Some(
            (n_frames, msg.map_values(|x: int| keys[x].0)),
        ),
{
    let b = compressed(n_frames, keys, code_bytes, msg, payload);
    let rec = key_records(keys, code_bytes);
    let ws = msg.map_values(|x: int| keys[x].1);
    let c = concat(ws);
    // the header
    lemma_be16(n_frames);
    lemma_be32(msg.len());
    assert(b.subrange(0, 2) =~= be16(n_frames));
    assert(b.subrange(2, 6) =~= be32(msg.len()));
    assert(b[6] == keys.len() as u8);
    // the code word records
    assert(b.subrange(7, 7 + rec.len() as int) =~= rec);
    lemma_parse_records(b, 7, keys, code_bytes, Map::empty());
    let table = store_keys(Map::<Seq<u8>, u8>::empty(), keys);
    lemma_code_table(keys);
    // the payload
    let o: int = 7 + rec.len() as int;
    assert(b.subrange(o as int, b.len() as int) =~= payload);
    let bits = bits_of(payload);
    let tail = bits.skip(c.len() as int);
    assert(bits =~= c + tail);
    assert forall|i: int| 0 <= i < ws.len() implies table.dom().contains(#[trigger] ws[i]) by {
        assert(ws[i] == keys[msg[i]].1);
    }
    lemma_decode_inverts_encode(table, ws, tail);
    let decoded = ws.map_values(|w: Seq<u8>| table[w]);
    let labels = msg.map_values(|x: int| keys[x].0);
    assert forall|i: int| 0 <= i < ws.len() implies #[trigger] decoded[i] == labels[i] by {
        assert(ws[i] == keys[msg[i]].1);
    }
    assert(decoded =~= labels);
}

} // verus!
