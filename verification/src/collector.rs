//! Node inventory: building node records from what the backends report,
//! merging records that describe the same machine, and applying the
//! configured overcommit factors. The backend calls themselves live
//! outside; quantity strings are parsed through the k8s quantity parser.

use vstd::prelude::*;

use crate::catalog::is_digit_char;
use crate::model::{Node, NodeView, Runtime, State, StoragePool, StoragePoolView, UserView};
use crate::text::string_eq_str;

use k8s_openapi::apimachinery::pkg::api::resource::Quantity;
use k8s_quantity_parser::QuantityParser;

verus! {

// ---------------------------------------------------------------------------
// Overcommit factors.
// ---------------------------------------------------------------------------

/// An overcommit factor as an exact ratio; the surrounding process turns
/// the configured factor into one.
#[derive(Clone, Copy, Debug)]
pub struct ScaleFactor {
    pub num: u64,
    pub den: u64,
}

impl ScaleFactor {
    /// The neutral factor.
    pub fn one() -> (r: ScaleFactor)
        ensures
            r.num == 1,
            r.den == 1,
    {
        ScaleFactor { num: 1, den: 1 }
    }
}

/// Scaling with a ratio, clamped to the machine's integer range.
pub open spec fn spec_scaled(v: int, num: int, den: int) -> int {
    let scaled = v * num / den;
    if scaled > usize::MAX {
        usize::MAX as int
    } else {
        scaled
    }
}

/// Scales a node's cpu capacity by the configured overcommit factor.
pub fn overcommit_cpu(cpu: usize, factor: &ScaleFactor) -> (r: usize)
    requires
        factor.den >= 1,
    ensures
        r == spec_scaled(cpu as int, factor.num as int, factor.den as int),
{
    let a = cpu as u128;
    let b = factor.num as u128;
    proof {
        assert(a * b <= 0xffff_ffff_ffff_ffffu128 * 0xffff_ffff_ffff_ffffu128) by (nonlinear_arith)
            requires
                a <= 0xffff_ffff_ffff_ffffu128,
                b <= 0xffff_ffff_ffff_ffffu128,
        ;
    }
    let scaled = (a * b) / (factor.den as u128);
    if scaled > usize::MAX as u128 {
        usize::MAX
    } else {
        scaled as usize
    }
}

/// Scales a node's memory capacity by the configured overcommit factor.
pub fn overcommit_memory(memory: usize, factor: &ScaleFactor) -> (r: usize)
    requires
        factor.den >= 1,
    ensures
        r == spec_scaled(memory as int, factor.num as int, factor.den as int),
{
    let a = memory as u128;
    let b = factor.num as u128;
    proof {
        assert(a * b <= 0xffff_ffff_ffff_ffffu128 * 0xffff_ffff_ffff_ffffu128) by (nonlinear_arith)
            requires
                a <= 0xffff_ffff_ffff_ffffu128,
                b <= 0xffff_ffff_ffff_ffffu128,
        ;
    }
    let scaled = (a * b) / (factor.den as u128);
    if scaled > usize::MAX as u128 {
        usize::MAX
    } else {
        scaled as usize
    }
}

// ---------------------------------------------------------------------------
// Quantities reported by the pod backend.
// ---------------------------------------------------------------------------

/// The milli-cpus a capacity string denotes, as the quantity parser reads
/// it.
pub uninterp spec fn milli_cpus_of(s: Seq<char>) -> Option<i64>;

/// The bytes a capacity string denotes, as the quantity parser reads it.
pub uninterp spec fn quantity_bytes_of(s: Seq<char>) -> Option<i64>;

/// A cpu capacity string short enough that the parser cannot overflow: a
/// fifteen-character decimal is below 10^15, and a thousandfold of that
/// stays well within a signed 64-bit value.
pub open spec fn cpu_quantity_safe(s: Seq<char>) -> bool {
    s.len() <= 15
}

/// A memory capacity string of a shape the parser reads without
/// overflowing: a plain decimal of at most fifteen digits, or at most nine
/// digits with one of the `Ki`/`Mi`/`Gi` suffixes (so even the largest
/// binary scaling stays within a signed 64-bit value).
pub open spec fn bytes_quantity_safe(s: Seq<char>) -> bool {
    ||| (1 <= s.len() <= 15 && forall|j: int| 0 <= j < s.len() ==> is_digit_char(#[trigger] s[j]))
    ||| (3 <= s.len() <= 11 && (forall|j: int|
        0 <= j < s.len() - 2 ==> is_digit_char(#[trigger] s[j])) && (s[s.len() - 2] == 'K' || s[
        s.len() - 2] == 'M' || s[s.len() - 2] == 'G') && s.last() == 'i')
}

/// Whether the cpu capacity string is short enough to parse safely.
pub fn cpu_quantity_safe_exec(s: &str) -> (r: bool)
    ensures
        r == cpu_quantity_safe(s@),
{
    s.unicode_len() <= 15
}

/// Whether the memory capacity string has a shape that parses safely.
pub fn bytes_quantity_safe_exec(s: &str) -> (r: bool)
    ensures
        r == bytes_quantity_safe(s@),
{
    let n = s.unicode_len();
    if n >= 1 && n <= 15 {
        let mut all_digits = true;
        let mut k: usize = 0;
        while k < n
            invariant
                0 <= k <= n,
                n == s@.len(),
                all_digits == forall|j: int| 0 <= j < k ==> is_digit_char(#[trigger] s@[j]),
            decreases n - k,
        {
            let c = s.get_char(k);
            let ghost before = all_digits;
            if !('0' <= c && c <= '9') {
                all_digits = false;
            }
            proof {
                if all_digits {
                    assert(forall|j: int| 0 <= j < k + 1 ==> is_digit_char(#[trigger] s@[j]));
                } else {
                    if before {
                        assert(!is_digit_char(s@[k as int]));
                    } else {
                        let w = choose|j: int| 0 <= j < k && !is_digit_char(#[trigger] s@[j]);
                        assert(!is_digit_char(s@[w]));
                    }
                }
            }
            k += 1;
        }
        if all_digits {
            return true;
        }
        if n >= 3 && n <= 11 {
            let unit = s.get_char(n - 2);
            if !(unit == 'K' || unit == 'M' || unit == 'G') {
                proof {
                    assert(!bytes_quantity_safe(s@));
                }
                return false;
            }
            if s.get_char(n - 1) != 'i' {
                proof {
                    assert(!bytes_quantity_safe(s@));
                }
                return false;
            }
            let mut k: usize = 0;
            while k < n - 2
                invariant
                    0 <= k <= n - 2,
                    3 <= n <= 11,
                    n == s@.len(),
                    forall|j: int| 0 <= j < k ==> is_digit_char(#[trigger] s@[j]),
                decreases n - k,
            {
                let c = s.get_char(k);
                if !('0' <= c && c <= '9') {
                    proof {
                        assert(!is_digit_char(s@[k as int]));
                        assert(!bytes_quantity_safe(s@));
                    }
                    return false;
                }
                k += 1;
            }
            return true;
        }
        proof {
            let w = choose|j: int| 0 <= j < s@.len() && !is_digit_char(#[trigger] s@[j]);
            assert(!bytes_quantity_safe(s@));
        }
        false
    } else {
        if n >= 3 && n <= 11 {
            let unit = s.get_char(n - 2);
            if !(unit == 'K' || unit == 'M' || unit == 'G') {
                return false;
            }
            if s.get_char(n - 1) != 'i' {
                return false;
            }
            let mut k: usize = 0;
            while k < n - 2
                invariant
                    0 <= k <= n - 2,
                    3 <= n <= 11,
                    n == s@.len(),
                    forall|j: int| 0 <= j < k ==> is_digit_char(#[trigger] s@[j]),
                decreases n - k,
            {
                let c = s.get_char(k);
                if !('0' <= c && c <= '9') {
                    proof {
                        assert(!is_digit_char(s@[k as int]));
                    }
                    return false;
                }
                k += 1;
            }
            return true;
        }
        false
    }
}

/// Relies on the quantity parser's `to_milli_cpus`: the result depends on
/// the string alone, and a plain decimal denotes that many whole cpus,
/// i.e. a thousandfold of milli-cpus. The parser's multiplication can
/// overflow and panic, so oversized inputs are excluded.
#[verifier::external_body]
pub fn to_milli_cpus(s: &str) -> (r: Option<i64>)
    requires
        cpu_quantity_safe(s@),
    ensures
        r == milli_cpus_of(s@),
        forall|n: int|
            0 <= n <= 0x3fff_ffff_ffff && s@ == crate::text::dec_str(n) ==> r == Some(
                (1000 * n) as i64,
            ),
{
    Quantity(s.to_string()).to_milli_cpus().ok().flatten()
}

/// Relies on the quantity parser's `to_bytes`: the result depends on the
/// string alone; a plain decimal denotes bytes and the binary suffixes
/// scale by powers of 1024. The parser's multiplications can overflow and
/// panic, so oversized inputs are excluded.
#[verifier::external_body]
pub fn to_quantity_bytes(s: &str) -> (r: Option<i64>)
    requires
        bytes_quantity_safe(s@),
    ensures
        r == quantity_bytes_of(s@),
        forall|n: int|
            0 <= n <= 0x3fff_ffff_ffff && s@ == crate::text::dec_str(n) ==> r == Some(n as i64),
        forall|n: int|
            0 <= n <= 999_999_999 && s@ == crate::text::dec_str(n) + "Ki"@ ==> r == Some(
                (n * 1024) as i64,
            ),
        forall|n: int|
            0 <= n <= 999_999_999 && s@ == crate::text::dec_str(n) + "Mi"@ ==> r == Some(
                (n * 1024 * 1024) as i64,
            ),
        forall|n: int|
            0 <= n <= 999_999_999 && s@ == crate::text::dec_str(n) + "Gi"@ ==> r == Some(
                (n * 1024 * 1024 * 1024) as i64,
            ),
{
    Quantity(s.to_string()).to_bytes().ok().flatten()
}

/// A node as the pod backend reports it: capacity read from the quantity
/// strings (cores from milli-cpus, memory in whole GiB; a string outside
/// the safely parseable shapes counts as unknown), the two pod runtimes,
/// no storage pools.
pub fn kube_node(name: String, cpu_capacity: &str, memory_capacity: &str) -> (r: Node)
    ensures
        r@.name == name@,
        r@.cpu_total == if cpu_quantity_safe(cpu_capacity@) {
            match milli_cpus_of(cpu_capacity@) {
                Some(m) => if m >= 0 {
                    if m as int / 1000 > usize::MAX {
                        usize::MAX as int
                    } else {
                        m as int / 1000
                    }
                } else {
                    0
                },
                None => 0,
            }
        } else {
            0
        },
        r@.memory_total == if bytes_quantity_safe(memory_capacity@) {
            match quantity_bytes_of(memory_capacity@) {
                Some(b) => if b >= 0 {
                    if b as int / 0x4000_0000 > usize::MAX {
                        usize::MAX as int
                    } else {
                        b as int / 0x4000_0000
                    }
                } else {
                    0
                },
                None => 0,
            }
        } else {
            0
        },
        r@.runtimes == seq![Runtime::Kata, Runtime::Runc],
        r@.storage_pools.len() == 0,
        r@.cpu_allocated == 0,
        r@.memory_allocated == 0,
        r@.storage_total == 0,
        r@.storage_used == 0,
        r@.storage_allocated == 0,
{
    let cpu_total: usize = if cpu_quantity_safe_exec(cpu_capacity) {
        match to_milli_cpus(cpu_capacity) {
            Some(m) => if m >= 0 {
                let q = m / 1000;
                if q as u128 > usize::MAX as u128 {
                    usize::MAX
                } else {
                    q as usize
                }
            } else {
                0
            },
            None => 0,
        }
    } else {
        // An unreadable or oversized capacity counts as unknown.
        0
    };
    let memory_total: usize = if bytes_quantity_safe_exec(memory_capacity) {
        match to_quantity_bytes(memory_capacity) {
            Some(b) => if b >= 0 {
                let q = b / 0x4000_0000;
                if q as u128 > usize::MAX as u128 {
                    usize::MAX
                } else {
                    q as usize
                }
            } else {
                0
            },
            None => 0,
        }
    } else {
        0
    };
    let mut runtimes: Vec<Runtime> = Vec::new();
    runtimes.push(Runtime::Kata);
    runtimes.push(Runtime::Runc);
    let r = Node {
        name,
        storage_pools: Vec::new(),
        runtimes,
        cpu_total,
        cpu_allocated: 0,
        memory_total,
        memory_allocated: 0,
        storage_total: 0,
        storage_used: 0,
        storage_allocated: 0,
    };
    proof {
        assert(r@.runtimes =~= seq![Runtime::Kata, Runtime::Runc]);
        assert(r@.storage_pools =~= Seq::<StoragePoolView>::empty());
    }
    r
}

// ---------------------------------------------------------------------------
// Merging nodes that backends report under one name.
// ---------------------------------------------------------------------------

/// Total capacity over a node's pools.
pub open spec fn pool_total_sum(pools: Seq<StoragePoolView>) -> int
    decreases pools.len(),
{
    if pools.len() == 0 {
        0
    } else {
        pools.first().total + pool_total_sum(pools.drop_first())
    }
}

/// Used capacity over a node's pools.
pub open spec fn pool_used_sum(pools: Seq<StoragePoolView>) -> int
    decreases pools.len(),
{
    if pools.len() == 0 {
        0
    } else {
        pools.first().used + pool_used_sum(pools.drop_first())
    }
}

/// Whether some pool in the sequence bears this name.
pub open spec fn pools_have_name(pools: Seq<StoragePoolView>, q: Seq<char>) -> bool {
    exists|j: int| 0 <= j < pools.len() && (#[trigger] pools[j]).name == q
}

proof fn lemma_pool_sums_nonneg(pools: Seq<StoragePoolView>)
    requires
        forall|j: int| 0 <= j < pools.len() ==> (#[trigger] pools[j]).total >= 0 && pools[j].used
            >= 0,
    ensures
        pool_total_sum(pools) >= 0,
        pool_used_sum(pools) >= 0,
    decreases pools.len(),
{
    if pools.len() > 0 {
        assert(forall|j: int|
            0 <= j < pools.drop_first().len() ==> (#[trigger] pools.drop_first()[j]) == pools[j
                + 1]);
        lemma_pool_sums_nonneg(pools.drop_first());
    }
}

proof fn lemma_pool_sums_push(pools: Seq<StoragePoolView>, p: StoragePoolView)
    ensures
        pool_total_sum(pools.push(p)) == pool_total_sum(pools) + p.total,
        pool_used_sum(pools.push(p)) == pool_used_sum(pools) + p.used,
    decreases pools.len(),
{
    if pools.len() == 0 {
        assert(pools.push(p).drop_first() =~= Seq::<StoragePoolView>::empty());
        assert(pools.push(p).first() == p);
        assert(pool_total_sum(Seq::<StoragePoolView>::empty()) == 0);
        assert(pool_used_sum(Seq::<StoragePoolView>::empty()) == 0);
    } else {
        lemma_pool_sums_push(pools.drop_first(), p);
        assert(pools.push(p).drop_first() =~= pools.drop_first().push(p));
        assert(pools.push(p).first() == pools.first());
    }
}

/// A merged node stays internally consistent: unique pool names, storage
/// totals that are the sums over its pools, untouched (zero) allocation
/// counters.
pub open spec fn merged_node_consistent(n: NodeView) -> bool {
    &&& forall|j: int, k: int|
        0 <= j < k < n.storage_pools.len() ==> (#[trigger] n.storage_pools[j]).name != (
        #[trigger] n.storage_pools[k]).name
    &&& n.storage_total == pool_total_sum(n.storage_pools)
    &&& n.storage_used == pool_used_sum(n.storage_pools)
    &&& n.cpu_allocated == 0
    &&& n.memory_allocated == 0
    &&& n.storage_allocated == 0
    &&& forall|j: int| 0 <= j < n.storage_pools.len() ==> (#[trigger] n.storage_pools[j]).allocated
        == 0
}

fn node_pool_named(n: &Node, name: &String) -> (r: bool)
    ensures
        r == pools_have_name(n@.storage_pools, name@),
{
    let m = n.storage_pools.len();
    let mut j: usize = 0;
    while j < m
        invariant
            0 <= j <= m,
            m == n.storage_pools@.len(),
            n@.storage_pools.len() == m,
            forall|q: int| 0 <= q < j ==> (#[trigger] n@.storage_pools[q]).name != name@,
        decreases m - j,
    {
        assert(n@.storage_pools[j as int] == n.storage_pools@[j as int]@);
        if string_eq_str(&n.storage_pools[j].name, name.as_str()) {
            return true;
        }
        j += 1;
    }
    false
}

fn node_runtime_known(n: &Node, rt: &Runtime) -> (r: bool)
    ensures
        r == n@.runtimes.contains(*rt),
{
    let m = n.runtimes.len();
    let mut j: usize = 0;
    while j < m
        invariant
            0 <= j <= m,
            m == n.runtimes@.len(),
            forall|q: int| 0 <= q < j ==> n@.runtimes[q] != *rt,
        decreases m - j,
    {
        if n.runtimes[j] == *rt {
            return true;
        }
        j += 1;
    }
    false
}

/// Folds one reported record into the merged record of the same machine:
/// runtimes are unioned, pools are unioned by name (the first report of a
/// pool wins), capacity totals take the smaller positive report, and the
/// storage sums follow the pools.
#[verifier::rlimit(100)]
pub fn merge_into(acc: &mut Node, n: &Node)
    requires
        merged_node_consistent(old(acc)@),
        forall|j: int| 0 <= j < n@.storage_pools.len() ==> (#[trigger] n@.storage_pools[j]).allocated
            == 0,
        n@.storage_pools.len() + old(acc)@.storage_pools.len() <= 0xffff,
        pool_total_sum(old(acc)@.storage_pools) + pool_total_sum(n@.storage_pools) <= usize::MAX,
        pool_used_sum(old(acc)@.storage_pools) + pool_used_sum(n@.storage_pools) <= usize::MAX,
        forall|j: int| 0 <= j < n@.storage_pools.len() ==> (#[trigger] n@.storage_pools[j]).total
            >= 0 && n@.storage_pools[j].used >= 0,
    ensures
        merged_node_consistent(final(acc)@),
        final(acc)@.name == old(acc)@.name,
        forall|r: Runtime|
            final(acc)@.runtimes.contains(r) == (old(acc)@.runtimes.contains(r)
                || n@.runtimes.contains(r)),
        forall|p: Seq<char>|
            #[trigger] pools_have_name(final(acc)@.storage_pools, p) == (pools_have_name(
                old(acc)@.storage_pools,
                p,
            ) || pools_have_name(n@.storage_pools, p)),
        final(acc)@.cpu_total == if old(acc)@.cpu_total == 0 || (n@.cpu_total > 0 && n@.cpu_total
            < old(acc)@.cpu_total) {
            n@.cpu_total
        } else {
            old(acc)@.cpu_total
        },
        final(acc)@.memory_total == if old(acc)@.memory_total == 0 || (n@.memory_total > 0
            && n@.memory_total < old(acc)@.memory_total) {
            n@.memory_total
        } else {
            old(acc)@.memory_total
        },
        final(acc)@.storage_pools.len() <= old(acc)@.storage_pools.len()
            + n@.storage_pools.len(),
        pool_total_sum(final(acc)@.storage_pools) <= pool_total_sum(old(acc)@.storage_pools)
            + pool_total_sum(n@.storage_pools),
        pool_used_sum(final(acc)@.storage_pools) <= pool_used_sum(old(acc)@.storage_pools)
            + pool_used_sum(n@.storage_pools),
{
    let ghost acc0 = old(acc)@;
    // Runtimes: append the ones not present yet.
    let rlen = n.runtimes.len();
    let mut j: usize = 0;
    while j < rlen
        invariant
            0 <= j <= rlen,
            rlen == n.runtimes@.len(),
            acc0 == old(acc)@,
            acc.name == old(acc).name,
            acc.storage_pools == old(acc).storage_pools,
            acc.cpu_total == old(acc).cpu_total,
            acc.cpu_allocated == old(acc).cpu_allocated,
            acc.memory_total == old(acc).memory_total,
            acc.memory_allocated == old(acc).memory_allocated,
            acc.storage_total == old(acc).storage_total,
            acc.storage_used == old(acc).storage_used,
            acc.storage_allocated == old(acc).storage_allocated,
            forall|r: Runtime|
                #[trigger] acc@.runtimes.contains(r) == (acc0.runtimes.contains(r)
                    || n@.runtimes.take(j as int).contains(r)),
        decreases rlen - j,
    {
        let rt = n.runtimes[j];
        let ghost before = acc@.runtimes;
        let known = node_runtime_known(acc, &rt);
        if !known {
            acc.runtimes.push(rt);
        }
        proof {
            if !known {
                assert(acc@.runtimes =~= before.push(rt));
            }
            assert forall|r: Runtime|
                #[trigger] acc@.runtimes.contains(r) == (acc0.runtimes.contains(r)
                    || n@.runtimes.take(j as int + 1).contains(r)) by {
                if acc@.runtimes.contains(r) {
                    let idx = choose|idx: int|
                        0 <= idx < acc@.runtimes.len() && acc@.runtimes[idx] == r;
                    if idx < before.len() {
                        assert(before[idx] == r);
                        assert(before.contains(r));
                    } else {
                        assert(r == rt);
                        assert(n@.runtimes.take(j as int + 1)[j as int] == rt);
                        assert(n@.runtimes.take(j as int + 1).contains(r));
                    }
                }
                if acc0.runtimes.contains(r) {
                    assert(before.contains(r));
                    let idx = choose|idx: int| 0 <= idx < before.len() && #[trigger] before[idx]
                        == r;
                    assert(acc@.runtimes[idx] == r);
                    assert(acc@.runtimes.contains(r));
                }
                if n@.runtimes.take(j as int + 1).contains(r) {
                    let idx = choose|idx: int|
                        0 <= idx < j + 1 && #[trigger] n@.runtimes.take(j as int + 1)[idx] == r;
                    if idx < j {
                        assert(n@.runtimes.take(j as int)[idx] == r);
                        assert(n@.runtimes.take(j as int).contains(r));
                        assert(before.contains(r));
                        let bix = choose|bix: int|
                            0 <= bix < before.len() && before[bix] == r;
                        assert(acc@.runtimes[bix] == r);
                        assert(acc@.runtimes.contains(r));
                    } else {
                        assert(r == rt);
                        if known {
                            assert(before.contains(rt));
                            let bix = choose|bix: int|
                                0 <= bix < before.len() && before[bix] == rt;
                            assert(acc@.runtimes[bix] == rt);
                        } else {
                            assert(acc@.runtimes.last() == rt);
                        }
                        assert(acc@.runtimes.contains(r));
                    }
                }
            }
        }
        j += 1;
    }
    proof {
        assert(n@.runtimes.take(rlen as int) =~= n@.runtimes);
        assert(n@.storage_pools.skip(0) =~= n@.storage_pools);
        assert(acc@.storage_pools == acc0.storage_pools);
    }
    // Pools: append the ones whose name is new; keep the sums in step.
    let plen = n.storage_pools.len();
    let mut p: usize = 0;
    while p < plen
        invariant
            0 <= p <= plen,
            plen == n.storage_pools@.len(),
            n@.storage_pools.len() == plen,
            acc0 == old(acc)@,
            merged_node_consistent(acc0),
            acc.name == old(acc).name,
            forall|r: Runtime|
                #[trigger] acc@.runtimes.contains(r) == (acc0.runtimes.contains(r)
                    || n@.runtimes.contains(r)),
            acc.cpu_total == old(acc).cpu_total,
            acc.cpu_allocated == old(acc).cpu_allocated,
            acc.memory_total == old(acc).memory_total,
            acc.memory_allocated == old(acc).memory_allocated,
            acc.storage_allocated == old(acc).storage_allocated,
            forall|q: int, k: int|
                0 <= q < k < acc@.storage_pools.len() ==> (#[trigger] acc@.storage_pools[q]).name
                    != (#[trigger] acc@.storage_pools[k]).name,
            acc@.storage_total == pool_total_sum(acc@.storage_pools),
            acc@.storage_used == pool_used_sum(acc@.storage_pools),
            forall|q: int| 0 <= q < acc@.storage_pools.len() ==> (
            #[trigger] acc@.storage_pools[q]).allocated == 0,
            forall|j: int| 0 <= j < n@.storage_pools.len() ==> (
            #[trigger] n@.storage_pools[j]).allocated == 0 && n@.storage_pools[j].total >= 0
                && n@.storage_pools[j].used >= 0,
            forall|q: Seq<char>|
                #[trigger] pools_have_name(acc@.storage_pools, q) == (pools_have_name(
                    acc0.storage_pools,
                    q,
                ) || (exists|j: int|
                    0 <= j < p && (#[trigger] n@.storage_pools[j]).name == q)),
            acc@.storage_pools.len() <= acc0.storage_pools.len() + p,
            pool_total_sum(acc@.storage_pools) + pool_total_sum(n@.storage_pools.skip(p as int))
                <= pool_total_sum(acc0.storage_pools) + pool_total_sum(n@.storage_pools),
            pool_used_sum(acc@.storage_pools) + pool_used_sum(n@.storage_pools.skip(p as int))
                <= pool_used_sum(acc0.storage_pools) + pool_used_sum(n@.storage_pools),
            pool_total_sum(acc0.storage_pools) + pool_total_sum(n@.storage_pools) <= usize::MAX,
            pool_used_sum(acc0.storage_pools) + pool_used_sum(n@.storage_pools) <= usize::MAX,
            pool_total_sum(acc@.storage_pools) >= 0,
            pool_used_sum(acc@.storage_pools) >= 0,
        decreases plen - p,
    {
        proof {
            assert(n@.storage_pools[p as int] == n.storage_pools@[p as int]@);
            assert(n@.storage_pools.skip(p as int).first() == n@.storage_pools[p as int]);
            assert(n@.storage_pools.skip(p as int).drop_first() =~= n@.storage_pools.skip(
                p as int + 1,
            ));
            lemma_pool_sums_nonneg(n@.storage_pools.skip(p as int + 1));
        }
        let pool = &n.storage_pools[p];
        let ghost beforep = acc@.storage_pools;
        let ghost rts = acc@.runtimes;
        let had = node_pool_named(acc, &pool.name);
        proof {
            assert(acc@.runtimes =~= rts);
        }
        if !had {
            let newp = StoragePool {
                name: pool.name.clone(),
                total: pool.total,
                used: pool.used,
                allocated: 0,
            };
            proof {
                lemma_pool_sums_push(beforep, newp@);
            }
            acc.storage_total = acc.storage_total + pool.total;
            acc.storage_used = acc.storage_used + pool.used;
            acc.storage_pools.push(newp);
            proof {
                assert(acc@.storage_pools =~= beforep.push(newp@));
                assert(acc@.runtimes =~= rts);
            }
        }
        proof {
            assert(acc@.runtimes =~= rts);
            assert forall|q: Seq<char>|
                #[trigger] pools_have_name(acc@.storage_pools, q) == (pools_have_name(
                    acc0.storage_pools,
                    q,
                ) || (exists|j: int|
                    0 <= j < p + 1 && (#[trigger] n@.storage_pools[j]).name == q)) by {
                if pools_have_name(acc@.storage_pools, q) {
                    let idx = choose|idx: int|
                        0 <= idx < acc@.storage_pools.len() && (
                        #[trigger] acc@.storage_pools[idx]).name == q;
                    if idx < beforep.len() {
                        assert(beforep[idx].name == q);
                        assert(pools_have_name(beforep, q));
                    } else {
                        assert(acc@.storage_pools[idx].name == n@.storage_pools[p as int].name);
                    }
                }
                if pools_have_name(acc0.storage_pools, q) {
                    assert(pools_have_name(beforep, q));
                    let idx = choose|idx: int|
                        0 <= idx < beforep.len() && (#[trigger] beforep[idx]).name == q;
                    assert(acc@.storage_pools[idx] == beforep[idx]);
                    assert(pools_have_name(acc@.storage_pools, q));
                }
                if exists|j: int| 0 <= j < p + 1 && (#[trigger] n@.storage_pools[j]).name == q {
                    let jj = choose|jj: int|
                        0 <= jj < p + 1 && (#[trigger] n@.storage_pools[jj]).name == q;
                    if jj < p {
                        assert(pools_have_name(beforep, q));
                        let idx = choose|idx: int|
                            0 <= idx < beforep.len() && (#[trigger] beforep[idx]).name == q;
                        assert(acc@.storage_pools[idx] == beforep[idx]);
                        assert(pools_have_name(acc@.storage_pools, q));
                    } else {
                        assert(q == n@.storage_pools[p as int].name);
                        if had {
                            assert(pools_have_name(beforep, q));
                            let idx = choose|idx: int|
                                0 <= idx < beforep.len() && (#[trigger] beforep[idx]).name == q;
                            assert(acc@.storage_pools[idx] == beforep[idx]);
                        } else {
                            assert(acc@.storage_pools.last().name == q);
                        }
                        assert(pools_have_name(acc@.storage_pools, q));
                    }
                }
            }
            // Uniqueness of the appended pool's name.
            if !had {
                assert(forall|k: int|
                    0 <= k < beforep.len() ==> (#[trigger] beforep[k]).name != n@.storage_pools[
                        p as int].name);
                assert(forall|q: int, k: int|
                    0 <= q < k < acc@.storage_pools.len() ==> (
                    #[trigger] acc@.storage_pools[q]).name != (
                    #[trigger] acc@.storage_pools[k]).name);
            }
        }
        p += 1;
    }
    proof {
        assert(n@.storage_pools.skip(plen as int) =~= Seq::<StoragePoolView>::empty());
    }
    // Capacity: the smaller positive report wins; zero means unknown.
    let ghost rts_end = acc@.runtimes;
    if acc.cpu_total == 0 || (n.cpu_total > 0 && n.cpu_total < acc.cpu_total) {
        acc.cpu_total = n.cpu_total;
    }
    if acc.memory_total == 0 || (n.memory_total > 0 && n.memory_total < acc.memory_total) {
        acc.memory_total = n.memory_total;
    }
    proof {
        assert(acc@.runtimes == rts_end);
        assert forall|r: Runtime|
            #[trigger] acc@.runtimes.contains(r) == (acc0.runtimes.contains(r)
                || n@.runtimes.contains(r)) by {
            assert(rts_end.contains(r) == (acc0.runtimes.contains(r) || n@.runtimes.contains(r)));
        }
    }
}

} // verus!
