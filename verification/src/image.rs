//! The paged memory image: the committed byte contents of the guest
//! address space together with the program counter.
//!
//! Words are kept sparsely, as a vector of `(address, word)` pairs sorted
//! strictly by address; absent words read as zero. The sorted vector is a
//! canonical representation: two images with the same contents hold the
//! same pairs, so the hash-based image identifier is a function of the
//! contents alone.

use vstd::prelude::*;
use crate::bytes::word_byte;
use crate::platform::ADDR_END;

use sha2::Digest;

verus! {

/// The pairs are strictly ascending by address.
pub open spec fn sorted_strict(s: Seq<(u32, u32)>) -> bool {
    forall|i: int, j: int| 0 <= i < j < s.len() ==> s[i].0 < s[j].0
}

/// The partial map from word address to stored word that a pair sequence
/// denotes; a later pair wins over an earlier one with the same address.
pub open spec fn pairs_map(s: Seq<(u32, u32)>) -> Map<u32, u32>
    decreases s.len(),
{
    if s.len() == 0 {
        Map::empty()
    } else {
        pairs_map(s.drop_last()).insert(s.last().0, s.last().1)
    }
}

/// With distinct addresses, the map holds exactly the listed pairs.
pub proof fn lemma_pairs_map_props(s: Seq<(u32, u32)>)
    requires
        sorted_strict(s),
    ensures
        forall|i: int|
            0 <= i < s.len() ==> pairs_map(s).contains_key(s[i].0) && pairs_map(s)[s[i].0]
                == s[i].1,
        forall|k: u32|
            pairs_map(s).contains_key(k) ==> exists|i: int| 0 <= i < s.len() && s[i].0 == k,
    decreases s.len(),
{
    if s.len() > 0 {
        let d = s.drop_last();
        assert(sorted_strict(d));
        lemma_pairs_map_props(d);
        assert forall|i: int|
            0 <= i < s.len() implies pairs_map(s).contains_key(s[i].0) && pairs_map(s)[s[i].0]
            == s[i].1 by {
            if i < s.len() - 1 {
                assert(d[i] == s[i]);
                assert(s[i].0 != s.last().0);
            }
        }
        assert forall|k: u32| pairs_map(s).contains_key(k) implies exists|i: int|
            0 <= i < s.len() && s[i].0 == k by {
            if k != s.last().0 {
                let i = choose|i: int| 0 <= i < d.len() && d[i].0 == k;
                assert(s[i].0 == k);
            } else {
                assert(s[s.len() - 1].0 == k);
            }
        }
    }
}

/// Overwriting the pair at a present address updates the denoted map.
pub proof fn lemma_pairs_map_update(s: Seq<(u32, u32)>, i: int, v: u32)
    requires
        sorted_strict(s),
        0 <= i < s.len(),
    ensures
        sorted_strict(s.update(i, (s[i].0, v))),
        pairs_map(s.update(i, (s[i].0, v))) == pairs_map(s).insert(s[i].0, v),
{
    let t = s.update(i, (s[i].0, v));
    assert(sorted_strict(t));
    lemma_pairs_map_props(s);
    lemma_pairs_map_props(t);
    let m = pairs_map(s).insert(s[i].0, v);
    assert forall|k: u32| #[trigger] pairs_map(t).contains_key(k) implies m.contains_key(k)
        && pairs_map(t)[k] == m[k] by {
        let j = choose|j: int| 0 <= j < t.len() && t[j].0 == k;
        assert(s[j].0 == k);
        if j != i {
            assert(t[j] == s[j]);
        }
    }
    assert forall|k: u32| #[trigger] m.contains_key(k) implies pairs_map(t).contains_key(k) by {
        if k == s[i].0 {
            assert(t[i].0 == k && t[i].1 == v);
        } else {
            let j = choose|j: int| 0 <= j < s.len() && s[j].0 == k;
            assert(j != i);
            assert(t[j] == s[j]);
        }
    }
    assert(pairs_map(t) =~= pairs_map(s).insert(s[i].0, v));
}

/// Inserting a pair with a fresh address at its ordered position updates
/// the denoted map and keeps the sequence sorted.
pub proof fn lemma_pairs_map_seq_insert(s: Seq<(u32, u32)>, i: int, p: (u32, u32))
    requires
        sorted_strict(s),
        0 <= i <= s.len(),
        forall|j: int| 0 <= j < i ==> s[j].0 < p.0,
        forall|j: int| i <= j < s.len() ==> s[j].0 > p.0,
    ensures
        sorted_strict(s.insert(i, p)),
        pairs_map(s.insert(i, p)) == pairs_map(s).insert(p.0, p.1),
{
    let t = s.insert(i, p);
    assert forall|x: int, y: int| 0 <= x < y < t.len() implies t[x].0 < t[y].0 by {
        assert(x < i ==> t[x] == s[x]);
        assert(x > i ==> t[x] == s[x - 1]);
        assert(y < i ==> t[y] == s[y]);
        assert(y > i ==> t[y] == s[y - 1]);
    }
    lemma_pairs_map_props(s);
    lemma_pairs_map_props(t);
    let m = pairs_map(s).insert(p.0, p.1);
    assert forall|k: u32| #[trigger] pairs_map(t).contains_key(k) implies m.contains_key(k)
        && pairs_map(t)[k] == m[k] by {
        let j = choose|j: int| 0 <= j < t.len() && t[j].0 == k;
        if j < i {
            assert(t[j] == s[j]);
        } else if j > i {
            assert(t[j] == s[j - 1]);
        }
    }
    assert forall|k: u32| #[trigger] m.contains_key(k) implies pairs_map(t).contains_key(k) by {
        if k == p.0 {
            assert(t[i] == p);
        } else {
            let j = choose|j: int| 0 <= j < s.len() && s[j].0 == k;
            if j < i {
                assert(t[j] == s[j]);
            } else {
                assert(t[j + 1] == s[j]);
            }
        }
    }
    assert(pairs_map(t) =~= pairs_map(s).insert(p.0, p.1));
}

/// Sorted pair sequences are a canonical representation: two of them
/// denoting the same map are equal.
pub proof fn lemma_sorted_pairs_canonical(a: Seq<(u32, u32)>, b: Seq<(u32, u32)>)
    requires
        sorted_strict(a),
        sorted_strict(b),
        pairs_map(a) == pairs_map(b),
    ensures
        a == b,
    decreases a.len(),
{
    lemma_pairs_map_props(a);
    lemma_pairs_map_props(b);
    if a.len() == 0 {
        if b.len() > 0 {
            assert(pairs_map(b).contains_key(b[b.len() - 1].0));
            assert(false);
        }
        assert(a =~= b);
    } else {
        assert(pairs_map(a).contains_key(a[a.len() - 1].0));
        if b.len() == 0 {
            assert(false);
        }
        let la = a.last();
        let lb = b.last();
        let ia = choose|i: int| 0 <= i < b.len() && b[i].0 == la.0;
        assert(la.0 <= lb.0);
        let ib = choose|i: int| 0 <= i < a.len() && a[i].0 == lb.0;
        assert(lb.0 <= la.0);
        assert(la.0 == lb.0);
        assert(pairs_map(a)[la.0] == la.1 && pairs_map(b)[lb.0] == lb.1);
        assert(la == lb);
        let da = a.drop_last();
        let db = b.drop_last();
        assert(sorted_strict(da) && sorted_strict(db));
        lemma_pairs_map_props(da);
        lemma_pairs_map_props(db);
        assert(pairs_map(da) =~= pairs_map(a).remove(la.0)) by {
            assert(!pairs_map(da).contains_key(la.0));
            assert(forall|k: u32|
                pairs_map(da).contains_key(k) && k != la.0 ==> pairs_map(a).contains_key(k));
            assert forall|k: u32|
                #[trigger] pairs_map(da).contains_key(k) implies k != la.0 && pairs_map(da)[k]
                == pairs_map(a)[k] by {
                let j = choose|j: int| 0 <= j < da.len() && da[j].0 == k;
                assert(a[j].0 == k && a[j].1 == da[j].1);
            }
            assert forall|k: u32| pairs_map(a).contains_key(k) && k != la.0 implies pairs_map(
                da,
            ).contains_key(k) by {
                let j = choose|j: int| 0 <= j < a.len() && a[j].0 == k;
                assert(j < a.len() - 1);
                assert(da[j].0 == k);
            }
        }
        assert(pairs_map(db) =~= pairs_map(b).remove(lb.0)) by {
            assert(!pairs_map(db).contains_key(lb.0));
            assert forall|k: u32|
                #[trigger] pairs_map(db).contains_key(k) implies k != lb.0 && pairs_map(db)[k]
                == pairs_map(b)[k] by {
                let j = choose|j: int| 0 <= j < db.len() && db[j].0 == k;
                assert(b[j].0 == k && b[j].1 == db[j].1);
            }
            assert forall|k: u32| pairs_map(b).contains_key(k) && k != lb.0 implies pairs_map(
                db,
            ).contains_key(k) by {
                let j = choose|j: int| 0 <= j < b.len() && b[j].0 == k;
                assert(j < b.len() - 1);
                assert(db[j].0 == k);
            }
        }
        lemma_sorted_pairs_canonical(da, db);
        assert(a =~= b);
    }
}

/// Little-endian byte serialization of a word.
pub open spec fn le4(w: u32) -> Seq<u8> {
    seq![word_byte(w, 0), word_byte(w, 1), word_byte(w, 2), word_byte(w, 3)]
}

/// Byte serialization of a pair sequence, in order.
pub open spec fn ser_pairs(s: Seq<(u32, u32)>) -> Seq<u8>
    decreases s.len(),
{
    if s.len() == 0 {
        Seq::empty()
    } else {
        ser_pairs(s.drop_last()) + le4(s.last().0) + le4(s.last().1)
    }
}

/// Byte serialization of a whole image: its pairs followed by its entry
/// program counter.
pub open spec fn ser_image(s: Seq<(u32, u32)>, pc: u32) -> Seq<u8> {
    ser_pairs(s) + le4(pc)
}

/// Digest of a byte string under SHA-256.
pub uninterp spec fn sha256_of(data: Seq<u8>) -> Seq<u8>;

/// Relies on sha2::Sha256: the digest is 32 bytes and a function of the
/// input bytes alone.
#[verifier::external_body]
fn sha256_digest(data: &Vec<u8>) -> (r: Vec<u8>)
    ensures
        r@ == sha256_of(data@),
        r@.len() == 32,
{
    sha2::Sha256::digest(data.as_slice()).to_vec()
}

/// Identifier of an image: the SHA-256 digest of its canonical
/// serialization.
pub open spec fn image_id(s: Seq<(u32, u32)>, pc: u32) -> Seq<u8> {
    sha256_of(ser_image(s, pc))
}

/// A paged, sparse memory image. Absent words read as zero.
pub struct MemoryImage {
    words: Vec<(u32, u32)>,
    pc: u32,
}

impl MemoryImage {
    /// The representation is sorted strictly by address and every stored
    /// word lies, aligned, inside the monitored address space.
    pub closed spec fn wf(self) -> bool {
        sorted_strict(self.words@) && forall|i: int|
            0 <= i < self.words@.len() ==> (self.words@[i].0 % 4 == 0 && self.words@[i].0
                < ADDR_END)
    }

    /// The stored pairs, in address order.
    pub closed spec fn repr(self) -> Seq<(u32, u32)> {
        self.words@
    }

    /// Program counter at which execution of this image starts or resumes.
    pub closed spec fn entry(self) -> u32 {
        self.pc
    }

    /// Program counter at which execution of this image starts or resumes.
    pub fn pc(&self) -> (r: u32)
        ensures
            r == self.entry(),
    {
        self.pc
    }

    /// Move the entry point; the contents are unchanged.
    pub fn set_pc(&mut self, pc: u32)
        ensures
            final(self).repr() == old(self).repr(),
            final(self)@ == old(self)@,
            final(self).wf() == old(self).wf(),
            final(self).entry() == pc,
    {
        self.pc = pc;
    }

    /// The contents as a partial map from word address to word.
    pub open spec fn view(self) -> Map<u32, u32> {
        pairs_map(self.repr())
    }

    /// The word stored at an address, zero if absent.
    pub open spec fn word_at(self, a: u32) -> u32 {
        if self@.contains_key(a) {
            self@[a]
        } else {
            0
        }
    }

    /// An empty image: every word zero.
    pub fn new(pc: u32) -> (r: MemoryImage)
        ensures
            r.wf(),
            r@ == Map::<u32, u32>::empty(),
            r.repr() == Seq::<(u32, u32)>::empty(),
            r.entry() == pc,
    {
        MemoryImage { words: Vec::new(), pc }
    }

    /// An identical copy.
    pub fn snapshot(&self) -> (r: MemoryImage)
        ensures
            r.repr() == self.repr(),
            r.entry() == self.entry(),
            r.wf() == self.wf(),
            r@ == self@,
    {
        let mut words: Vec<(u32, u32)> = Vec::new();
        let n = self.words.len();
        let mut i: usize = 0;
        while i < n
            invariant
                i <= n,
                n == self.words@.len(),
                words@ == self.words@.take(i as int),
            decreases n - i,
        {
            words.push(self.words[i]);
            proof {
                assert(words@ =~= self.words@.take(i + 1));
            }
            i = i + 1;
        }
        proof {
            assert(words@ =~= self.words@);
        }
        MemoryImage { words, pc: self.pc }
    }

    /// Index of the pair holding `addr`, or the position where it would be
    /// inserted.
    fn find(&self, addr: u32) -> (r: (usize, bool))
        requires
            sorted_strict(self.words@),
        ensures
            r.1 ==> r.0 < self.words@.len() && self.words@[r.0 as int].0 == addr,
            !r.1 ==> r.0 <= self.words@.len() && (forall|j: int|
                0 <= j < r.0 ==> self.words@[j].0 < addr) && (forall|j: int|
                r.0 <= j < self.words@.len() ==> self.words@[j].0 > addr),
    {
        let mut lo: usize = 0;
        let mut hi: usize = self.words.len();
        while lo < hi
            invariant
                lo <= hi <= self.words@.len(),
                sorted_strict(self.words@),
                forall|j: int| 0 <= j < lo ==> self.words@[j].0 < addr,
                forall|j: int| hi <= j < self.words@.len() ==> self.words@[j].0 > addr,
            decreases hi - lo,
        {
            let mid = lo + (hi - lo) / 2;
            let k = self.words[mid].0;
            if k < addr {
                lo = mid + 1;
            } else if k > addr {
                hi = mid;
            } else {
                return (mid, true);
            }
        }
        (lo, false)
    }

    /// Read the word at an aligned address.
    pub fn load_word(&self, addr: u32) -> (r: u32)
        requires
            self.wf(),
        ensures
            r == self.word_at(addr),
    {
        let (i, found) = self.find(addr);
        proof {
            lemma_pairs_map_props(self.words@);
        }
        if found {
            self.words[i].1
        } else {
            proof {
                if self@.contains_key(addr) {
                    let j = choose|j: int|
                        0 <= j < self.words@.len() && self.words@[j].0 == addr;
                    assert(false);
                }
            }
            0
        }
    }

    /// Store a word at an aligned address inside the address space.
    pub fn store_word(&mut self, addr: u32, val: u32)
        requires
            old(self).wf(),
            addr % 4 == 0,
            addr < ADDR_END,
        ensures
            final(self).wf(),
            final(self)@ == old(self)@.insert(addr, val),
            final(self).entry() == old(self).entry(),
    {
        let (i, found) = self.find(addr);
        if found {
            proof {
                lemma_pairs_map_update(self.words@, i as int, val);
            }
            self.words.set(i, (addr, val));
        } else {
            proof {
                lemma_pairs_map_seq_insert(self.words@, i as int, (addr, val));
            }
            self.words.insert(i, (addr, val));
        }
    }

    /// The hash-based identifier of this image: the SHA-256 digest of the
    /// canonical serialization of its contents and entry point.
    pub fn compute_id(&self) -> (r: Vec<u8>)
        requires
            self.wf(),
        ensures
            r@ == image_id(self.repr(), self.entry()),
            r@.len() == 32,
    {
        let mut data: Vec<u8> = Vec::new();
        let n = self.words.len();
        let mut i: usize = 0;
        while i < n
            invariant
                i <= n,
                n == self.words@.len(),
                data@ == ser_pairs(self.words@.take(i as int)),
            decreases n - i,
        {
            let (a, v) = self.words[i];
            push_le4(&mut data, a);
            push_le4(&mut data, v);
            proof {
                let t = self.words@.take(i + 1);
                assert(t.drop_last() =~= self.words@.take(i as int));
                assert(t.last() == self.words@[i as int]);
                assert(data@ =~= ser_pairs(t));
            }
            i = i + 1;
        }
        proof {
            assert(self.words@.take(n as int) =~= self.words@);
        }
        push_le4(&mut data, self.pc);
        proof {
            assert(data@ =~= ser_image(self.words@, self.pc));
        }
        sha256_digest(&data)
    }
}

/// Append the little-endian bytes of a word.
fn push_le4(data: &mut Vec<u8>, w: u32)
    ensures
        final(data)@ == old(data)@ + le4(w),
{
    data.push(crate::bytes::byte_of_word(w, 0));
    data.push(crate::bytes::byte_of_word(w, 1));
    data.push(crate::bytes::byte_of_word(w, 2));
    data.push(crate::bytes::byte_of_word(w, 3));
    proof {
        assert(data@ =~= old(data)@ + le4(w));
    }
}

/// Two well-formed images with the same contents and entry point have the
/// same identifier: the representation is canonical, so the serialization
/// and hence the digest agree.
pub proof fn lemma_image_id_of_view(a: MemoryImage, b: MemoryImage)
    requires
        a.wf(),
        b.wf(),
        a@ == b@,
        a.entry() == b.entry(),
    ensures
        image_id(a.repr(), a.entry()) == image_id(b.repr(), b.entry()),
{
    lemma_sorted_pairs_canonical(a.repr(), b.repr());
}

} // verus!
