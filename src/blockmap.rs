//! The MFS allocation block map: 12-bit link entries packed two to three
//! bytes, and the walk that turns a start block into a fork's block chain.
use vstd::prelude::*;

use crate::error::FsError;
use crate::counting::lemma_distinct_within;

verus! {

/// High nibble of a byte.
pub fn nib_hi(v: u8) -> (r: u8)
    ensures
        r == v / 16,
        r < 16,
{
    v / 16
}

/// Low nibble of a byte.
pub fn nib_lo(v: u8) -> (r: u8)
    ensures
        r == v % 16,
        r < 16,
{
    v % 16
}

/// Joins three nibbles, most significant first, into a 12-bit value.
pub fn u16_from_nibs(n1: u8, n2: u8, n3: u8) -> (r: u16)
    requires
        n1 < 16,
        n2 < 16,
        n3 < 16,
    ensures
        r == n1 as nat * 256 + n2 as nat * 16 + n3 as nat,
        r < 4096,
{
    (n1 as u16) * 256 + (n2 as u16) * 16 + (n3 as u16)
}

/// Entry `i` of the link table packed in `raw`: three bytes hold two entries,
/// the first in the first byte and the high nibble of the second, the other in
/// the low nibble of the second byte and the third byte.
pub open spec fn packed_entry(raw: Seq<u8>, i: int) -> u16 {
    let k = i / 2;
    if i % 2 == 0 {
        (raw[3 * k] as nat * 16 + raw[3 * k + 1] as nat / 16) as u16
    } else {
        ((raw[3 * k + 1] as nat % 16) * 256 + raw[3 * k + 2] as nat) as u16
    }
}

/// The link table packed in `raw`; trailing bytes short of a triple are unused.
pub open spec fn unpacked(raw: Seq<u8>) -> Seq<u16> {
    Seq::new(((raw.len() / 3) * 2) as nat, |i: int| packed_entry(raw, i))
}

/// The link table of an MFS volume. Entry `i` belongs to allocation block
/// `i + 2`: 0 marks it free, 1 ends a chain, anything else is the next block.
#[derive(Clone, Debug)]
pub struct BlockMap(pub Vec<u16>);

impl View for BlockMap {
    type V = Seq<u16>;

    open spec fn view(&self) -> Seq<u16> {
        self.0@
    }
}

/// Unpacks the on-disk link table.
pub fn gimme_block_map(v: Vec<u8>) -> (r: BlockMap)
    ensures
        r@ == unpacked(v@),
{
    let len = v.len();
    let n = len / 3;
    let mut out: Vec<u16> = Vec::new();
    let mut k: usize = 0;
    while k < n
        invariant
            len == v@.len(),
            n == v@.len() / 3,
            k <= n,
            out@.len() == 2 * k,
            forall|i: int| 0 <= i < 2 * k ==> out@[i] == packed_entry(v@, i),
        decreases n - k,
    {
        assert(3 * k + 2 < v@.len()) by (nonlinear_arith)
            requires k < n, n == v@.len() / 3;
        let b0 = v[3 * k];
        let b1 = v[3 * k + 1];
        let b2 = v[3 * k + 2];
        let a = u16_from_nibs(nib_hi(b0), nib_lo(b0), nib_hi(b1));
        let b = u16_from_nibs(nib_lo(b1), nib_hi(b2), nib_lo(b2));
        assert(a as nat == b0 as nat * 16 + b1 as nat / 16);
        assert(b as nat == (b1 as nat % 16) * 256 + b2 as nat);
        out.push(a);
        out.push(b);
        proof {
            assert((2 * k) / 2 == k && (2 * k) % 2 == 0);
            assert((2 * k + 1) / 2 == k && (2 * k + 1) % 2 == 1);
        }
        k = k + 1;
    }
    assert(out@ =~= unpacked(v@));
    BlockMap(out)
}

/// The block number reached after `i` steps of the walk from `start`.
pub open spec fn walk(map: Seq<u16>, start: u16, i: nat) -> u16
    decreases i,
{
    if i == 0 {
        start
    } else {
        let prev = walk(map, start, (i - 1) as nat);
        map[prev - 2]
    }
}

/// The block reached after `i` steps names a link entry of the table.
pub open spec fn linked_at(map: Seq<u16>, start: u16, i: nat) -> bool {
    let b = walk(map, start, i);
    2 <= b && b - 2 < map.len()
}

/// The walk from `start` reaches a chain end (0 or 1) after exactly `n` steps,
/// every block before it naming a link entry.
pub open spec fn ends_at(map: Seq<u16>, start: u16, n: nat) -> bool {
    &&& forall|k: nat| k < n ==> #[trigger] linked_at(map, start, k)
    &&& walk(map, start, n) <= 1
}

/// The walk from `start` ends.
pub open spec fn terminates(map: Seq<u16>, start: u16) -> bool {
    exists|n: nat| ends_at(map, start, n)
}

/// The length of the chain from `start`, where it ends.
pub open spec fn chain_len(map: Seq<u16>, start: u16) -> nat {
    choose|n: nat| ends_at(map, start, n)
}

/// The logical blocks (block number minus 2) of the chain from `start`, in
/// chain order.
pub open spec fn chain(map: Seq<u16>, start: u16) -> Seq<u16> {
    Seq::new(chain_len(map, start), |k: int| (walk(map, start, k as nat) - 2) as u16)
}

/// A walk ends after one number of steps only.
pub proof fn lemma_ends_at_unique(map: Seq<u16>, start: u16, n: nat, m: nat)
    requires
        ends_at(map, start, n),
        ends_at(map, start, m),
    ensures
        n == m,
{
    if n < m {
        assert(linked_at(map, start, n));
    } else if m < n {
        assert(linked_at(map, start, m));
    }
}

/// Once two steps of a walk meet, the walk repeats with their distance as period.
proof fn lemma_walk_period(map: Seq<u16>, start: u16, i: nat, j: nat, t: nat)
    requires
        i < j,
        walk(map, start, i) == walk(map, start, j),
    ensures
        walk(map, start, i + t) == walk(map, start, j + t),
    decreases t,
{
    if t > 0 {
        lemma_walk_period(map, start, i, j, (t - 1) as nat);
        assert(walk(map, start, i + t) == map[walk(map, start, (i + t - 1) as nat) - 2]);
        assert(walk(map, start, j + t) == map[walk(map, start, (j + t - 1) as nat) - 2]);
    }
}

/// Every step of a walk that has met itself with all steps up to the meeting
/// linked is linked too.
proof fn lemma_cycle_linked(map: Seq<u16>, start: u16, i: nat, j: nat, m: nat)
    requires
        i < j,
        walk(map, start, i) == walk(map, start, j),
        forall|k: nat| k <= j ==> #[trigger] linked_at(map, start, k),
    ensures
        linked_at(map, start, m),
    decreases m,
{
    if m > j {
        let p = (j - i) as nat;
        let m2 = (m - p) as nat;
        lemma_walk_period(map, start, i, j, (m2 - i) as nat);
        assert(i + (m2 - i) == m2);
        assert(j + (m2 - i) == m);
        lemma_cycle_linked(map, start, i, j, m2);
    }
}

/// A chain that comes back to a block it already visited never ends: the walk
/// over such a block map has no end at any step.
pub proof fn lemma_revisit_never_ends(map: Seq<u16>, start: u16, i: nat, j: nat)
    requires
        i < j,
        walk(map, start, i) == walk(map, start, j),
        forall|k: nat| k <= j ==> #[trigger] linked_at(map, start, k),
    ensures
        !terminates(map, start),
{
    if terminates(map, start) {
        let n = choose|n: nat| ends_at(map, start, n);
        lemma_cycle_linked(map, start, i, j, n);
    }
}

/// A walk that reaches a block outside the table never ends.
proof fn lemma_unlinked_never_ends(map: Seq<u16>, start: u16, j: nat)
    requires
        forall|k: nat| k < j ==> #[trigger] linked_at(map, start, k),
        walk(map, start, j) >= 2,
        !linked_at(map, start, j),
    ensures
        !terminates(map, start),
{
    if terminates(map, start) {
        let n = choose|n: nat| ends_at(map, start, n);
        if n < j {
            assert(linked_at(map, start, n));
        } else if n > j {
            assert(linked_at(map, start, j));
        }
    }
}

impl BlockMap {
    /// Number of link entries.
    pub fn len(&self) -> (r: usize)
        ensures
            r == self@.len(),
    {
        self.0.len()
    }

    /// Sets link entry `i`.
    pub fn set(&mut self, i: usize, v: u16)
        requires
            i < old(self)@.len(),
        ensures
            final(self)@ == old(self)@.update(i as int, v),
    {
        self.0.set(i, v);
    }

    /// Link entry `i`.
    pub fn get(&self, i: usize) -> (r: u16)
        requires
            i < self@.len(),
        ensures
            r == self@[i as int],
    {
        self.0[i]
    }

    /// The logical blocks of the chain that starts at block `start`, in chain
    /// order. A chain that leaves the table or comes back to a block it
    /// already visited is corruption.
    pub fn blocks_of(&self, start: u16) -> (r: Result<Vec<u16>, FsError>)
        ensures
            r is Ok <==> terminates(self@, start),
            r matches Ok(v) ==> v@ == chain(self@, start) && chain_len(self@, start) <= self@.len()
                && forall|k: int, l: int| 0 <= k < l < v@.len() ==> v@[k] != v@[l],
            r matches Err(e) ==> e == FsError::StructuralCorruption,
    {
        let map = &self.0;
        let n = map.len();
        let mut seen: Vec<bool> = Vec::new();
        let mut z: usize = 0;
        while z < n
            invariant
                z <= n,
                seen@.len() == z,
                forall|q: int| 0 <= q < z ==> !seen@[q],
            decreases n - z,
        {
            seen.push(false);
            z = z + 1;
        }
        let mut out: Vec<u16> = Vec::new();
        let mut cur = start;
        while cur >= 2
            invariant
                n == map@.len(),
                map@ == self@,
                seen@.len() == n,
                out@.len() <= n,
                cur == walk(self@, start, out@.len() as nat),
                forall|k: nat| k < out@.len() ==> #[trigger] linked_at(self@, start, k),
                forall|k: int| 0 <= k < out@.len() ==> out@[k] == (walk(self@, start, k as nat) - 2) as u16,
                forall|k: int, l: int| 0 <= k < l < out@.len() ==> out@[k] != out@[l],
                forall|k: int| 0 <= k < out@.len() ==> out@[k] < n,
                forall|q: int| 0 <= q < n ==> (seen@[q] <==> exists|k: int| 0 <= k < out@.len() && out@[k] == q),
            decreases n - out@.len(),
        {
            let idx = (cur - 2) as usize;
            if idx >= n {
                proof {
                    lemma_unlinked_never_ends(self@, start, out@.len() as nat);
                }
                return Err(FsError::StructuralCorruption);
            }
            if seen[idx] {
                proof {
                    let k = choose|k: int| 0 <= k < out@.len() && out@[k] == idx;
                    let j = out@.len() as nat;
                    assert(linked_at(self@, start, k as nat));
                    assert(walk(self@, start, k as nat) == walk(self@, start, j));
                    assert forall|m: nat| m <= j implies #[trigger] linked_at(self@, start, m) by {
                        if m < j {
                            assert(linked_at(self@, start, m));
                        }
                    }
                    lemma_revisit_never_ends(self@, start, k as nat, j);
                }
                return Err(FsError::StructuralCorruption);
            }
            proof {
                assert(!seen@[idx as int]);
                lemma_seen_bound(seen@, out@, n as int);
            }
            let ghost old_seen = seen@;
            let ghost old_out = out@;
            seen.set(idx, true);
            let ghost old_len = out@.len();
            out.push(idx as u16);
            proof {
                assert forall|q: int| 0 <= q < n implies (seen@[q] <==> exists|k: int| 0 <= k < out@.len() && out@[k] == q) by {
                    if q != idx {
                        if seen@[q] {
                            let k = choose|k: int| 0 <= k < old_out.len() && old_out[k] == q;
                            assert(out@[k] == q);
                        }
                        if exists|k: int| 0 <= k < out@.len() && out@[k] == q {
                            let k = choose|k: int| 0 <= k < out@.len() && out@[k] == q;
                            assert(k < old_len);
                        }
                    } else {
                        assert(out@[old_len as int] == q);
                    }
                }
                assert(linked_at(self@, start, old_len as nat));
                assert forall|k: nat| k < out@.len() implies #[trigger] linked_at(self@, start, k) by {
                    if k < old_len {
                        assert(linked_at(self@, start, k));
                    }
                }
            }
            cur = map[idx];
        }
        proof {
            let len = out@.len() as nat;
            assert(ends_at(self@, start, len));
            let c = chain_len(self@, start);
            lemma_ends_at_unique(self@, start, c, len);
            assert(out@ =~= chain(self@, start));
        }
        Ok(out)
    }
}

/// A chain whose entries are the same in two maps is the same chain in both.
pub proof fn lemma_chain_unchanged(map: Seq<u16>, map2: Seq<u16>, start: u16)
    requires
        terminates(map, start),
        map2.len() == map.len(),
        forall|k: int| 0 <= k < chain(map, start).len() ==> map2[chain(map, start)[k] as int] == map[chain(map, start)[k] as int],
    ensures
        terminates(map2, start),
        chain(map2, start) == chain(map, start),
{
    let n = chain_len(map, start);
    assert(ends_at(map, start, n));
    assert forall|k: nat| k <= n implies #[trigger] walk(map2, start, k) == walk(map, start, k) by {
        lemma_walk_same(map, map2, start, n, k);
    }
    assert forall|k: nat| k < n implies #[trigger] linked_at(map2, start, k) by {
        assert(linked_at(map, start, k));
    }
    assert(ends_at(map2, start, n));
    lemma_ends_at_unique(map2, start, chain_len(map2, start), n);
    assert(chain(map2, start) =~= chain(map, start));
}

/// Up to the end of a chain, the walk reads only the chain's entries.
proof fn lemma_walk_same(map: Seq<u16>, map2: Seq<u16>, start: u16, n: nat, k: nat)
    requires
        ends_at(map, start, n),
        n == chain_len(map, start),
        map2.len() == map.len(),
        forall|j: int| 0 <= j < chain(map, start).len() ==> map2[chain(map, start)[j] as int] == map[chain(map, start)[j] as int],
        k <= n,
    ensures
        walk(map2, start, k) == walk(map, start, k),
    decreases k,
{
    if k > 0 {
        lemma_walk_same(map, map2, start, n, (k - 1) as nat);
        assert(linked_at(map, start, (k - 1) as nat));
        let prev = walk(map, start, (k - 1) as nat);
        assert(chain(map, start)[k - 1] as int == prev - 2);
    }
}

/// Linking a free block `f` after the last block of a chain that ends
/// (or making it the start of an empty chain) gives that chain with `f` added.
pub proof fn lemma_chain_extend(map: Seq<u16>, start: u16, f: int, map2: Seq<u16>, start2: u16)
    requires
        terminates(map, start),
        forall|k: int, l: int| 0 <= k < l < chain(map, start).len() ==> chain(map, start)[k] != chain(map, start)[l],
        0 <= f < map.len(),
        f + 2 <= u16::MAX,
        forall|k: int| 0 <= k < chain(map, start).len() ==> chain(map, start)[k] != f,
        chain(map, start).len() == 0 ==> start2 == f + 2 && map2 == map.update(f, 1),
        chain(map, start).len() > 0 ==> start2 == start && map2 == map.update(
            chain(map, start).last() as int,
            (f + 2) as u16,
        ).update(f, 1),
    ensures
        terminates(map2, start2),
        chain(map2, start2) == chain(map, start).push(f as u16),
{
    let n = chain_len(map, start);
    assert(ends_at(map, start, n));
    let c = chain(map, start);
    if n == 0 {
        assert(walk(map2, start2, 0) == f + 2);
        assert(walk(map2, start2, 1) == map2[f]);
        assert(linked_at(map2, start2, 0));
        assert(ends_at(map2, start2, 1));
    } else {
        let last = c.last() as int;
        assert(linked_at(map, start, (n - 1) as nat));
        assert forall|k: nat| k < n implies walk(map2, start2, k) == walk(map, start, k) by {
            lemma_walk_prefix(map, start, map2, n, f, k);
        }
        assert(walk(map2, start2, n) == map2[walk(map2, start2, (n - 1) as nat) - 2]);
        assert(walk(map2, start2, n) == f + 2);
        assert(walk(map2, start2, n + 1) == map2[f]);
        assert forall|k: nat| k < n + 1 implies #[trigger] linked_at(map2, start2, k) by {
            if k < n {
                assert(linked_at(map, start, k));
                assert(walk(map2, start2, k) == walk(map, start, k));
            }
        }
        assert(ends_at(map2, start2, n + 1));
    }
    let m = chain_len(map2, start2);
    lemma_ends_at_unique(map2, start2, m, n + 1);
    assert forall|k: int| 0 <= k < n implies #[trigger] chain(map2, start2)[k] == c[k] by {
        if n > 0 {
            lemma_walk_prefix(map, start, map2, n, f, k as nat);
        }
    }
    assert(chain(map2, start2) =~= c.push(f as u16));
}

/// Before its last block, the walk over a map changed only at the chain's
/// last entry and at a block off the chain follows the old walk.
proof fn lemma_walk_prefix(map: Seq<u16>, start: u16, map2: Seq<u16>, n: nat, f: int, k: nat)
    requires
        n > 0,
        ends_at(map, start, n),
        n == chain_len(map, start),
        forall|a: int, b: int| 0 <= a < b < chain(map, start).len() ==> chain(map, start)[a] != chain(map, start)[b],
        forall|a: int| 0 <= a < chain(map, start).len() ==> chain(map, start)[a] != f,
        0 <= f < map.len(),
        map2 == map.update(chain(map, start).last() as int, (f + 2) as u16).update(f, 1),
        k < n,
    ensures
        walk(map2, start, k) == walk(map, start, k),
    decreases k,
{
    if k > 0 {
        lemma_walk_prefix(map, start, map2, n, f, (k - 1) as nat);
        let c = chain(map, start);
        let prev = walk(map, start, (k - 1) as nat);
        assert(linked_at(map, start, (k - 1) as nat));
        assert(c[k - 1] == prev - 2);
        assert(c[k - 1] != c[n - 1]);
        assert(c.last() == c[n - 1]);
        assert(linked_at(map, start, (n - 1) as nat));
        assert(c[n - 1] < map.len());
        assert(c[k - 1] != f);
        assert((prev - 2) as int == c[k - 1] as int);
        assert(map2[prev - 2] == map[prev - 2]);
    }
}

/// While fewer than all entries are marked, the marked entries are the
/// distinct visited blocks, so fewer than `n` have been visited.
proof fn lemma_seen_bound(seen: Seq<bool>, out: Seq<u16>, n: int)
    requires
        seen.len() == n,
        out.len() <= n,
        forall|k: int, l: int| 0 <= k < l < out.len() ==> out[k] != out[l],
        forall|k: int| 0 <= k < out.len() ==> out[k] < n,
        exists|q: int| 0 <= q < n && !seen[q],
        forall|q: int| 0 <= q < n ==> (seen[q] <==> exists|k: int| 0 <= k < out.len() && out[k] == q),
    ensures
        out.len() < n,
{
    let q = choose|q: int| 0 <= q < n && !seen[q];
    let ints = out.map_values(|x: u16| x as int);
    assert(ints.no_duplicates());
    assert forall|k: int| 0 <= k < ints.len() implies 0 <= #[trigger] ints[k] < n && ints[k] != q by {
        assert(seen[out[k] as int]);
    }
    lemma_distinct_within(ints, n, q);
}

} // verus!
