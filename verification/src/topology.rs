//! CPU topology: the model shown by the GUI (logical processors, physical
//! cores, dies / CCDs), how it is built from the processor relations that
//! Windows reports, and how the die of each logical processor is told from
//! CPUID readings on AMD parts (Windows rarely reports CCDs on desktops).
//!
//! Querying Windows, pinning a thread to each processor and executing
//! CPUID are done by the application; the readings come here as values.
use vstd::prelude::*;

verus! {

// =========================================================================
// Model
// =========================================================================

/// One logical processor (SMT thread).
#[derive(Clone, Copy, Debug, PartialEq, Eq, Structural)]
pub struct LogicalProcessorInfo {
    /// Global index: group * 64 + bit.
    pub index: u32,
    /// Windows processor group.
    pub group: u16,
    /// Bit index inside the group (the bit used by group masks).
    pub group_index: u8,
    /// Owning physical core.
    pub core_id: u32,
    /// Owning die / CCD.
    pub die_id: u32,
    /// Owning package (socket).
    pub package_id: u32,
    /// Thread number inside its core (0 = primary).
    pub smt_thread_id: u32,
    /// Intel hybrid: 0 = P-core, 1 = E-core.
    pub efficiency_class: u8,
    /// A secondary SMT thread of a hyper-threaded core.
    pub is_smt_secondary: bool,
}

/// One physical core.
#[derive(Debug)]
pub struct CoreInfo {
    pub id: u32,
    pub die_id: u32,
    pub package_id: u32,
    /// The core runs more than one logical processor.
    pub has_smt: bool,
    /// Global indices of its logical processors.
    pub threads: Vec<u32>,
    pub efficiency_class: u8,
}

/// One die / CCD.
#[derive(Debug)]
pub struct DieInfo {
    pub id: u32,
    pub package_id: u32,
    pub cores: Vec<u32>,
    /// Global indices of all its logical processors.
    pub threads: Vec<u32>,
    /// A real multi-die structure was detected (false: a placeholder die).
    pub is_ccd: bool,
}

/// The whole CPU topology.
#[derive(Debug)]
pub struct CpuTopology {
    pub logical_processors: Vec<LogicalProcessorInfo>,
    pub cores: Vec<CoreInfo>,
    pub dies: Vec<DieInfo>,
    pub total_logical_processors: u32,
    /// Active Windows processor groups (above one, affinity is per group).
    pub group_count: u16,
    /// Compatibility flag for legacy UI paths.
    pub single_group: bool,
}

/// A processor core relation reported by Windows (one group mask of it).
#[derive(Clone, Copy, Debug)]
pub struct CoreEntry {
    pub group: u16,
    pub mask: u64,
    pub flags: u8,
    pub efficiency_class: u8,
}

/// A package or die relation reported by Windows (one group mask of it).
#[derive(Clone, Copy, Debug)]
pub struct GroupMaskEntry {
    pub group: u16,
    pub mask: u64,
}

/// The SMT flag of a core relation.
pub const LTP_PC_SMT: u8 = 0x1;

// =========================================================================
// Specification of the construction
// =========================================================================

pub open spec fn bit_set(mask: u64, b: nat) -> bool {
    (mask >> (b as u64)) & 1 == 1
}

/// The set bits of `mask` below `n`, ascending.
pub open spec fn set_bits_below(mask: u64, n: nat) -> Seq<nat>
    decreases n,
{
    if n == 0 {
        Seq::empty()
    } else {
        let r = set_bits_below(mask, (n - 1) as nat);
        if bit_set(mask, (n - 1) as nat) { r.push((n - 1) as nat) } else { r }
    }
}

/// Global indices of the processors a group mask selects, ascending.
pub open spec fn threads_below(group: u16, mask: u64, n: nat) -> Seq<u32> {
    set_bits_below(mask, n).map_values(|b: nat| (group * 64 + b) as u32)
}

pub open spec fn core_threads(e: CoreEntry) -> Seq<u32> {
    threads_below(e.group, e.mask, 64)
}

/// First set bit at or after `b` that has an entry in a per-processor map
/// of length `len`.
pub open spec fn first_mapped_bit(mask: u64, len: nat, b: nat) -> Option<nat>
    decreases 64 - b,
{
    if b >= 64 {
        None
    } else if bit_set(mask, b) && b < len {
        Some(b)
    } else {
        first_mapped_bit(mask, len, b + 1)
    }
}

/// Index of the first relation at or after `i` in the same group whose
/// mask covers `mask`.
pub open spec fn first_covering(rels: Seq<GroupMaskEntry>, group: u16, mask: u64, i: nat) -> Option<nat>
    decreases rels.len() - i,
{
    if i >= rels.len() {
        None
    } else if rels[i as int].group == group && mask & rels[i as int].mask == mask {
        Some(i)
    } else {
        first_covering(rels, group, mask, i + 1)
    }
}

/// The position of the covering relation, 0 when there is none.
pub open spec fn covering_index(rels: Seq<GroupMaskEntry>, group: u16, mask: u64) -> u32 {
    match first_covering(rels, group, mask, 0) {
        Some(i) => i as u32,
        None => 0,
    }
}

/// The die a core reports before renumbering: from the per-processor CPUID
/// map when there is one (the die of its first mapped processor), else
/// the position of the first die relation that covers it (0 when none).
pub open spec fn raw_die(e: CoreEntry, lp_die: Option<Seq<u32>>, die_rels: Seq<GroupMaskEntry>) -> u32 {
    match lp_die {
        Some(map) => match first_mapped_bit(e.mask, map.len(), 0) {
            Some(b) => map[b as int],
            None => 0,
        },
        None => covering_index(die_rels, e.group, e.mask),
    }
}

pub open spec fn raw_dies(cores: Seq<CoreEntry>, lp_die: Option<Seq<u32>>, die_rels: Seq<GroupMaskEntry>) -> Seq<u32> {
    cores.map_values(|e: CoreEntry| raw_die(e, lp_die, die_rels))
}

/// The distinct values, in order of first appearance.
pub open spec fn distinct_values(s: Seq<u32>) -> Seq<u32>
    decreases s.len(),
{
    if s.len() == 0 {
        Seq::empty()
    } else {
        let d = distinct_values(s.drop_last());
        if d.contains(s.last()) { d } else { d.push(s.last()) }
    }
}

/// How many of the values are below `x`.
pub open spec fn count_below(d: Seq<u32>, x: u32) -> nat
    decreases d.len(),
{
    if d.len() == 0 {
        0
    } else {
        count_below(d.drop_last(), x) + (if d.last() < x { 1nat } else { 0nat })
    }
}

/// Dies are renumbered compactly: a raw die becomes its rank among the
/// distinct raw dies.
pub open spec fn compact_die(raws: Seq<u32>, x: u32) -> u32 {
    count_below(distinct_values(raws), x) as u32
}

pub open spec fn die_count(raws: Seq<u32>) -> nat {
    if distinct_values(raws).len() == 0 { 1 } else { distinct_values(raws).len() }
}

/// The logical processor records of core `i`.
pub open spec fn core_lp(i: nat, e: CoreEntry, die: u32, package: u32, bits: Seq<nat>, k: int) -> LogicalProcessorInfo {
    LogicalProcessorInfo {
        index: (e.group * 64 + bits[k]) as u32,
        group: e.group,
        group_index: bits[k] as u8,
        core_id: i as u32,
        die_id: die,
        package_id: package,
        smt_thread_id: k as u32,
        efficiency_class: e.efficiency_class,
        is_smt_secondary: e.flags & LTP_PC_SMT != 0 && k > 0,
    }
}

pub open spec fn core_lps_below(i: nat, e: CoreEntry, die: u32, package: u32, n: nat) -> Seq<LogicalProcessorInfo> {
    Seq::new(set_bits_below(e.mask, n).len(), |k: int| core_lp(i, e, die, package, set_bits_below(e.mask, n), k))
}

/// Die and package of core `i`.
pub open spec fn die_of_core(cores: Seq<CoreEntry>, lp_die: Option<Seq<u32>>, die_rels: Seq<GroupMaskEntry>, i: int) -> u32 {
    compact_die(raw_dies(cores, lp_die, die_rels), raw_die(cores[i], lp_die, die_rels))
}

pub open spec fn package_of_core(cores: Seq<CoreEntry>, packages: Seq<GroupMaskEntry>, i: int) -> u32 {
    covering_index(packages, cores[i].group, cores[i].mask)
}

/// All logical processor records of the first `n` cores, core by core.
pub open spec fn lps_upto(cores: Seq<CoreEntry>, lp_die: Option<Seq<u32>>, die_rels: Seq<GroupMaskEntry>, packages: Seq<GroupMaskEntry>, n: nat) -> Seq<LogicalProcessorInfo>
    decreases n,
{
    if n == 0 {
        Seq::empty()
    } else {
        let i = (n - 1) as nat;
        lps_upto(cores, lp_die, die_rels, packages, i) + core_lps_below(i, cores[i as int],
            die_of_core(cores, lp_die, die_rels, i as int), package_of_core(cores, packages, i as int), 64)
    }
}

/// The cores (by id) of die `d` among the first `n` cores, in order.
pub open spec fn die_cores_upto(dies: Seq<u32>, d: u32, n: nat) -> Seq<u32>
    decreases n,
{
    if n == 0 {
        Seq::empty()
    } else {
        let rest = die_cores_upto(dies, d, (n - 1) as nat);
        if dies[n - 1] == d { rest.push((n - 1) as u32) } else { rest }
    }
}

/// The threads of die `d` among the first `n` cores, core by core.
pub open spec fn die_threads_upto(cores: Seq<CoreEntry>, dies: Seq<u32>, d: u32, n: nat) -> Seq<u32>
    decreases n,
{
    if n == 0 {
        Seq::empty()
    } else {
        let rest = die_threads_upto(cores, dies, d, (n - 1) as nat);
        if dies[n - 1] == d { rest + core_threads(cores[n - 1]) } else { rest }
    }
}

pub open spec fn opt_seq(v: Option<Vec<u32>>) -> Option<Seq<u32>> {
    match v {
        Some(x) => Some(x@),
        None => None,
    }
}

/// The renumbered die of every core.
pub open spec fn core_dies(cores: Seq<CoreEntry>, lp_die: Option<Seq<u32>>, die_rels: Seq<GroupMaskEntry>) -> Seq<u32> {
    Seq::new(cores.len(), |i: int| die_of_core(cores, lp_die, die_rels, i))
}

// =========================================================================
// Facts
// =========================================================================

proof fn lemma_count_below_le(d: Seq<u32>, x: u32)
    ensures
        count_below(d, x) <= d.len(),
    decreases d.len(),
{
    if d.len() > 0 {
        lemma_count_below_le(d.drop_last(), x);
    }
}

proof fn lemma_count_below_lt(d: Seq<u32>, x: u32)
    requires
        d.contains(x),
    ensures
        count_below(d, x) < d.len(),
    decreases d.len(),
{
    let p = d.drop_last();
    if p.contains(x) {
        lemma_count_below_lt(p, x);
    } else {
        let i = choose|i: int| 0 <= i < d.len() && d[i] == x;
        if i < d.len() - 1 {
            assert(p[i] == x);
        }
        assert(d.last() == x);
        lemma_count_below_le(p, x);
    }
}

proof fn lemma_distinct_contains(s: Seq<u32>, i: int)
    requires
        0 <= i < s.len(),
    ensures
        distinct_values(s).contains(s[i]),
    decreases s.len(),
{
    let p = s.drop_last();
    if i < s.len() - 1 {
        lemma_distinct_contains(p, i);
        assert(p[i] == s[i]);
        let d = distinct_values(p);
        let j = choose|j: int| 0 <= j < d.len() && d[j] == s[i];
        if !d.contains(s.last()) {
            assert(d.push(s.last())[j] == s[i]);
        }
    } else {
        let d = distinct_values(p);
        if !d.contains(s.last()) {
            assert(d.push(s.last())[d.len() as int] == s.last());
        }
    }
}

proof fn lemma_distinct_len(s: Seq<u32>)
    ensures
        distinct_values(s).len() <= s.len(),
        s.len() > 0 ==> distinct_values(s).len() > 0,
    decreases s.len(),
{
    if s.len() > 0 {
        lemma_distinct_len(s.drop_last());
        lemma_distinct_contains(s, s.len() - 1);
    }
}

// =========================================================================
// Construction
// =========================================================================

fn covering_index_exec(rels: &[GroupMaskEntry], group: u16, mask: u64) -> (r: u32)
    requires
        rels@.len() <= u32::MAX,
    ensures
        r == covering_index(rels@, group, mask),
{
    let mut i: usize = 0;
    while i < rels.len()
        invariant
            i <= rels@.len(),
            rels@.len() <= u32::MAX,
            first_covering(rels@, group, mask, 0) == first_covering(rels@, group, mask, i as nat),
        decreases rels.len() - i,
    {
        if rels[i].group == group && mask & rels[i].mask == mask {
            return i as u32;
        }
        i = i + 1;
    }
    0
}

proof fn lemma_first_mapped_bit_range(mask: u64, len: nat, b: nat)
    ensures
        first_mapped_bit(mask, len, b) matches Some(x) ==> x < 64 && x < len && b <= x,
    decreases 64 - b,
{
    if b < 64 && !(bit_set(mask, b) && b < len) {
        lemma_first_mapped_bit_range(mask, len, b + 1);
    }
}

fn first_mapped_bit_exec(mask: u64, len: usize) -> (r: Option<u64>)
    ensures
        match first_mapped_bit(mask, len as nat, 0) {
            Some(b) => r == Some(b as u64),
            None => r is None,
        },
        r matches Some(b) ==> b < 64 && b < len,
{
    let mut b: u64 = 0;
    while b < 64
        invariant
            b <= 64,
            first_mapped_bit(mask, len as nat, 0) == first_mapped_bit(mask, len as nat, b as nat),
        decreases 64 - b,
    {
        if (mask >> b) & 1 == 1 && (b as usize) < len {
            return Some(b);
        }
        b = b + 1;
    }
    None
}

fn raw_die_exec(e: CoreEntry, lp_die: &Option<Vec<u32>>, die_rels: &[GroupMaskEntry]) -> (r: u32)
    requires
        die_rels@.len() <= u32::MAX,
    ensures
        r == raw_die(e, opt_seq(*lp_die), die_rels@),
{
    match lp_die {
        Some(map) => {
            let found = first_mapped_bit_exec(e.mask, map.len());
            proof {
                lemma_first_mapped_bit_range(e.mask, map.len() as nat, 0);
            }
            assert(map@.len() == map.len() as nat);
            match found {
                Some(b) => {
                    let v = map[b as usize];
                    assert(v == map@[b as int]);
                    v
                },
                None => 0,
            }
        },
        None => covering_index_exec(die_rels, e.group, e.mask),
    }
}

fn distinct_exec(s: &Vec<u32>) -> (d: Vec<u32>)
    ensures
        d@ == distinct_values(s@),
{
    let mut d: Vec<u32> = Vec::new();
    let mut i: usize = 0;
    while i < s.len()
        invariant
            i <= s@.len(),
            d@ == distinct_values(s@.subrange(0, i as int)),
        decreases s.len() - i,
    {
        let x = s[i];
        let mut found = false;
        let mut k: usize = 0;
        while k < d.len()
            invariant
                k <= d@.len(),
                found <==> exists|m: int| 0 <= m < k && d@[m] == x,
            decreases d.len() - k,
        {
            if d[k] == x {
                found = true;
            }
            k = k + 1;
        }
        proof {
            let sub = s@.subrange(0, i + 1);
            assert(sub.drop_last() =~= s@.subrange(0, i as int));
            assert(sub.last() == x);
        }
        if !found {
            d.push(x);
        }
        i = i + 1;
    }
    assert(s@.subrange(0, i as int) =~= s@);
    d
}

fn count_below_exec(d: &Vec<u32>, x: u32) -> (c: usize)
    ensures
        c == count_below(d@, x),
{
    let mut c: usize = 0;
    let mut i: usize = 0;
    while i < d.len()
        invariant
            i <= d@.len(),
            c == count_below(d@.subrange(0, i as int), x),
            c <= i,
        decreases d.len() - i,
    {
        proof {
            let sub = d@.subrange(0, i + 1);
            assert(sub.drop_last() =~= d@.subrange(0, i as int));
        }
        if d[i] < x {
            c = c + 1;
        }
        i = i + 1;
    }
    assert(d@.subrange(0, i as int) =~= d@);
    c
}

/// The thread list and the logical processor records of one core.
fn core_records(i: u32, e: CoreEntry, die: u32, package: u32) -> (r: (Vec<u32>, Vec<LogicalProcessorInfo>))
    ensures
        r.0@ == core_threads(e),
        r.1@ == core_lps_below(i as nat, e, die, package, 64),
{
    let mut threads: Vec<u32> = Vec::new();
    let mut lps: Vec<LogicalProcessorInfo> = Vec::new();
    let mut bit: u64 = 0;
    let mut k: u32 = 0;
    proof {
        assert(threads_below(e.group, e.mask, 0) =~= Seq::<u32>::empty());
        assert(core_lps_below(i as nat, e, die, package, 0) =~= Seq::<LogicalProcessorInfo>::empty());
    }
    while bit < 64
        invariant
            bit <= 64,
            k as nat == set_bits_below(e.mask, bit as nat).len(),
            k <= bit,
            threads@ == threads_below(e.group, e.mask, bit as nat),
            lps@ == core_lps_below(i as nat, e, die, package, bit as nat),
        decreases 64 - bit,
    {
        let ghost before = set_bits_below(e.mask, bit as nat);
        let ghost after = set_bits_below(e.mask, (bit + 1) as nat);
        if (mask_bit(e.mask, bit)) {
            let global: u32 = (e.group as u32) * 64 + (bit as u32);
            let lp = LogicalProcessorInfo {
                index: global,
                group: e.group,
                group_index: bit as u8,
                core_id: i,
                die_id: die,
                package_id: package,
                smt_thread_id: k,
                efficiency_class: e.efficiency_class,
                is_smt_secondary: e.flags & LTP_PC_SMT != 0 && k > 0,
            };
            threads.push(global);
            lps.push(lp);
            proof {
                assert(after == before.push(bit as nat));
                assert(threads@ =~= threads_below(e.group, e.mask, (bit + 1) as nat));
                assert(lps@ =~= core_lps_below(i as nat, e, die, package, (bit + 1) as nat)) by {
                    assert forall|m: int| 0 <= m < after.len() implies
                        #[trigger] core_lp(i as nat, e, die, package, after, m) == lps@[m] by {
                        if m < before.len() {
                            assert(after[m] == before[m]);
                        } else {
                            assert(after[m] == bit as nat);
                        }
                    }
                }
            }
            k = k + 1;
        } else {
            proof {
                assert(after == before);
                assert(threads@ =~= threads_below(e.group, e.mask, (bit + 1) as nat));
                assert(lps@ =~= core_lps_below(i as nat, e, die, package, (bit + 1) as nat));
            }
        }
        bit = bit + 1;
    }
    (threads, lps)
}

fn mask_bit(mask: u64, bit: u64) -> (b: bool)
    requires
        bit < 64,
    ensures
        b == bit_set(mask, bit as nat),
{
    (mask >> bit) & 1 == 1
}

/// Build the topology from the relations Windows reports and, when the
/// CPUID probe succeeded, the die of each logical processor.
///
/// - Each core relation is one core (its id is its position); its threads
///   are the set bits of its mask, as global indices (group * 64 + bit).
/// - Its raw die comes from the probe map (the die of its first mapped
///   processor) or else from the first die relation that covers it; raw
///   dies are then renumbered 0..N-1 in increasing order.
/// - Its package is the first package relation that covers it (0 if none).
/// - Every die lists its cores and their threads in core order; there is
///   at least one die, and the dies count as CCDs when there are several.
/// - No core relation at all is an error.
///
/// Each core holds at most 64 logical processors and the total is a `u32`,
/// so fewer than 2^26 cores are accepted (Windows reports at most 64
/// processors in each of 2^16 groups, 2^22 in all).
pub fn build_topology(cores: &[CoreEntry], packages: &[GroupMaskEntry], die_rels: &[GroupMaskEntry], lp_die: Option<Vec<u32>>, group_count: u16) -> (r: Result<CpuTopology, String>)
    requires
        cores@.len() < 0x0400_0000,
        packages@.len() <= u32::MAX,
        die_rels@.len() <= u32::MAX,
    ensures
        r is Err <==> cores@.len() == 0,
        r matches Err(e) ==> e@ == "no processor core information detected"@,
        r matches Ok(t) ==> {
            let lpd = opt_seq(lp_die);
            let raws = raw_dies(cores@, lpd, die_rels@);
            let dies = core_dies(cores@, lpd, die_rels@);
            &&& t.logical_processors@ == lps_upto(cores@, lpd, die_rels@, packages@, cores@.len())
            &&& t.cores@.len() == cores@.len()
            &&& forall|i: int| 0 <= i < cores@.len() ==> {
                &&& (#[trigger] t.cores@[i]).id == i
                &&& t.cores@[i].die_id == dies[i]
                &&& t.cores@[i].package_id == package_of_core(cores@, packages@, i)
                &&& t.cores@[i].has_smt == (cores@[i].flags & LTP_PC_SMT != 0)
                &&& t.cores@[i].threads@ == core_threads(cores@[i])
                &&& t.cores@[i].efficiency_class == cores@[i].efficiency_class
            }
            &&& t.dies@.len() == die_count(raws)
            &&& forall|d: int| 0 <= d < t.dies@.len() ==> {
                &&& (#[trigger] t.dies@[d]).id == d
                &&& t.dies@[d].cores@ == die_cores_upto(dies, d as u32, cores@.len())
                &&& t.dies@[d].threads@ == die_threads_upto(cores@, dies, d as u32, cores@.len())
                &&& t.dies@[d].package_id == (if die_cores_upto(dies, d as u32, cores@.len()).len() > 0 {
                        package_of_core(cores@, packages@, die_cores_upto(dies, d as u32, cores@.len())[0] as int)
                    } else {
                        0
                    })
                &&& t.dies@[d].is_ccd == (die_count(raws) >= 2)
            }
            &&& t.total_logical_processors as nat == t.logical_processors@.len()
            &&& forall|k: int| 0 <= k < t.logical_processors@.len() ==> {
                let lp = #[trigger] t.logical_processors@[k];
                &&& (lp.core_id as int) < t.cores@.len()
                &&& lp.efficiency_class == t.cores@[lp.core_id as int].efficiency_class
                &&& lp.die_id == t.cores@[lp.core_id as int].die_id
                &&& lp.package_id == t.cores@[lp.core_id as int].package_id
                &&& lp.is_smt_secondary == (t.cores@[lp.core_id as int].has_smt && lp.smt_thread_id > 0)
            }
            &&& t.group_count == group_count
            &&& t.single_group == (group_count <= 1)
        },
{
    if cores.len() == 0 {
        return Err(String::from_str("no processor core information detected"));
    }
    let ghost lpd = opt_seq(lp_die);
    let n = cores.len();
    // Raw dies, then their compact renumbering.
    let mut raws: Vec<u32> = Vec::new();
    let mut i: usize = 0;
    while i < n
        invariant
            n == cores@.len(),
            i <= n,
            die_rels@.len() <= u32::MAX,
            raws@ == raw_dies(cores@, lpd, die_rels@).subrange(0, i as int),
            lpd == opt_seq(lp_die),
        decreases n - i,
    {
        raws.push(raw_die_exec(cores[i], &lp_die, die_rels));
        i = i + 1;
        assert(raws@ =~= raw_dies(cores@, lpd, die_rels@).subrange(0, i as int));
    }
    assert(raws@ =~= raw_dies(cores@, lpd, die_rels@));
    let distinct = distinct_exec(&raws);
    proof {
        lemma_distinct_len(raws@);
    }
    let n_dies: usize = if distinct.len() == 0 { 1 } else { distinct.len() };
    // Cores and logical processors.
    let mut lps: Vec<LogicalProcessorInfo> = Vec::new();
    let mut core_list: Vec<CoreInfo> = Vec::new();
    let mut dies_of: Vec<u32> = Vec::new();
    let mut pkgs_of: Vec<u32> = Vec::new();
    let ghost dies = core_dies(cores@, lpd, die_rels@);
    let mut c: usize = 0;
    while c < n
        invariant
            n == cores@.len(),
            n < 0x0400_0000,
            c <= n,
            packages@.len() <= u32::MAX,
            raws@ == raw_dies(cores@, lpd, die_rels@),
            distinct@ == distinct_values(raws@),
            dies == core_dies(cores@, lpd, die_rels@),
            lps@ == lps_upto(cores@, lpd, die_rels@, packages@, c as nat),
            lps@.len() <= 64 * c,
            core_list@.len() == c,
            dies_of@ == dies.subrange(0, c as int),
            pkgs_of@.len() == c,
            forall|k: int| 0 <= k < c ==> pkgs_of@[k] == package_of_core(cores@, packages@, k),
            forall|k: int| 0 <= k < c ==> (dies_of@[k] as nat) < distinct@.len(),
            forall|k: int| 0 <= k < c ==> {
                &&& (#[trigger] core_list@[k]).id == k
                &&& core_list@[k].die_id == dies[k]
                &&& core_list@[k].package_id == package_of_core(cores@, packages@, k)
                &&& core_list@[k].has_smt == (cores@[k].flags & LTP_PC_SMT != 0)
                &&& core_list@[k].threads@ == core_threads(cores@[k])
                &&& core_list@[k].efficiency_class == cores@[k].efficiency_class
            },
        decreases n - c,
    {
        let e = cores[c];
        let raw = raws[c];
        let rank = count_below_exec(&distinct, raw);
        proof {
            lemma_distinct_contains(raws@, c as int);
            lemma_count_below_lt(distinct@, raw);
        }
        let die = rank as u32;
        let pkg = covering_index_exec(packages, e.group, e.mask);
        let (threads, mut core_lps) = core_records(c as u32, e, die, pkg);
        proof {
            assert(die == dies[c as int]);
            assert(core_lps@.len() <= 64) by {
                lemma_set_bits_len(e.mask, 64);
            }
        }
        let ghost before = lps@;
        lps.append(&mut core_lps);
        proof {
            assert(lps_upto(cores@, lpd, die_rels@, packages@, (c + 1) as nat)
                == lps_upto(cores@, lpd, die_rels@, packages@, c as nat) + core_lps_below(c as nat, e, die, pkg, 64));
        }
        core_list.push(CoreInfo {
            id: c as u32,
            die_id: die,
            package_id: pkg,
            has_smt: e.flags & LTP_PC_SMT != 0,
            threads,
            efficiency_class: e.efficiency_class,
        });
        dies_of.push(die);
        pkgs_of.push(pkg);
        c = c + 1;
        assert(dies_of@ =~= dies.subrange(0, c as int));
    }
    assert(dies_of@ =~= dies);
    // Dies.
    let mut die_list: Vec<DieInfo> = Vec::new();
    let mut d: usize = 0;
    while d < n_dies
        invariant
            n == cores@.len(),
            n < 0x0400_0000,
            d <= n_dies,
            n_dies == die_count(raws@),
            n_dies <= n,
            raws@ == raw_dies(cores@, lpd, die_rels@),
            dies_of@ == dies,
            dies == core_dies(cores@, lpd, die_rels@),
            core_list@.len() == n,
            pkgs_of@.len() == n,
            forall|k: int| 0 <= k < n ==> pkgs_of@[k] == package_of_core(cores@, packages@, k),
            forall|k: int| 0 <= k < n ==> (#[trigger] core_list@[k]).threads@ == core_threads(cores@[k]),
            die_list@.len() == d,
            forall|m: int| 0 <= m < d ==> {
                &&& (#[trigger] die_list@[m]).id == m
                &&& die_list@[m].cores@ == die_cores_upto(dies, m as u32, n as nat)
                &&& die_list@[m].threads@ == die_threads_upto(cores@, dies, m as u32, n as nat)
                &&& die_list@[m].package_id == (if die_cores_upto(dies, m as u32, n as nat).len() > 0 {
                        package_of_core(cores@, packages@, die_cores_upto(dies, m as u32, n as nat)[0] as int)
                    } else {
                        0
                    })
                &&& die_list@[m].is_ccd == (die_count(raws@) >= 2)
            },
        decreases n_dies - d,
    {
        let did = d as u32;
        let mut dcores: Vec<u32> = Vec::new();
        let mut dthreads: Vec<u32> = Vec::new();
        let mut k: usize = 0;
        while k < n
            invariant
                n == cores@.len(),
                n < 0x0400_0000,
                k <= n,
                dies_of@ == dies,
                dies.len() == n,
                core_list@.len() == n,
                forall|m: int| 0 <= m < n ==> (#[trigger] core_list@[m]).threads@ == core_threads(cores@[m]),
                dcores@ == die_cores_upto(dies, did, k as nat),
                dthreads@ == die_threads_upto(cores@, dies, did, k as nat),
                forall|m: int| 0 <= m < dcores@.len() ==> (dcores@[m] as int) < k,
            decreases n - k,
        {
            if dies_of[k] == did {
                dcores.push(k as u32);
                let mut t = copy_u32s(&core_list[k].threads);
                dthreads.append(&mut t);
            }
            k = k + 1;
        }
        let pkg: u32 = if dcores.len() > 0 { pkgs_of[dcores[0] as usize] } else { 0 };
        die_list.push(DieInfo { id: did, package_id: pkg, cores: dcores, threads: dthreads, is_ccd: n_dies >= 2 });
        d = d + 1;
    }
    let total = lps.len() as u32;
    proof {
        lemma_lps_follow_cores(cores@, lpd, die_rels@, packages@, n as nat);
    }
    Ok(CpuTopology {
        logical_processors: lps,
        cores: core_list,
        dies: die_list,
        total_logical_processors: total,
        group_count,
        single_group: group_count <= 1,
    })
}

/// Every logical processor record of the first `n` cores belongs to one of
/// them and carries that core's efficiency class, die and package; only
/// the later threads of an SMT core are SMT secondaries.
pub proof fn lemma_lps_follow_cores(cores: Seq<CoreEntry>, lpd: Option<Seq<u32>>, die_rels: Seq<GroupMaskEntry>, packages: Seq<GroupMaskEntry>, n: nat)
    requires
        n <= cores.len(),
        n < 0x1_0000_0000,
    ensures
        forall|k: int| 0 <= k < lps_upto(cores, lpd, die_rels, packages, n).len() ==> {
            let lp = #[trigger] lps_upto(cores, lpd, die_rels, packages, n)[k];
            &&& (lp.core_id as int) < n
            &&& lp.efficiency_class == cores[lp.core_id as int].efficiency_class
            &&& lp.die_id == die_of_core(cores, lpd, die_rels, lp.core_id as int)
            &&& lp.package_id == package_of_core(cores, packages, lp.core_id as int)
            &&& lp.is_smt_secondary == (cores[lp.core_id as int].flags & LTP_PC_SMT != 0 && lp.smt_thread_id > 0)
            &&& lp.group == cores[lp.core_id as int].group
            &&& lp.group_index < 64
            &&& bit_set(cores[lp.core_id as int].mask, lp.group_index as nat)
            &&& lp.index as int == (lp.group as int * 64 + lp.group_index as int) % 0x1_0000_0000
        },
    decreases n,
{
    if n > 0 {
        let i = (n - 1) as nat;
        lemma_lps_follow_cores(cores, lpd, die_rels, packages, i);
        let prev = lps_upto(cores, lpd, die_rels, packages, i);
        let e = cores[i as int];
        let die = die_of_core(cores, lpd, die_rels, i as int);
        let pkg = package_of_core(cores, packages, i as int);
        let last = core_lps_below(i, e, die, pkg, 64);
        let all = lps_upto(cores, lpd, die_rels, packages, n);
        assert(all == prev + last);
        lemma_set_bits_len(e.mask, 64);
        lemma_set_bits_members(e.mask, 64);
        assert forall|k: int| 0 <= k < all.len() implies {
            let lp = #[trigger] all[k];
            &&& (lp.core_id as int) < n
            &&& lp.efficiency_class == cores[lp.core_id as int].efficiency_class
            &&& lp.die_id == die_of_core(cores, lpd, die_rels, lp.core_id as int)
            &&& lp.package_id == package_of_core(cores, packages, lp.core_id as int)
            &&& lp.is_smt_secondary == (cores[lp.core_id as int].flags & LTP_PC_SMT != 0 && lp.smt_thread_id > 0)
            &&& lp.group == cores[lp.core_id as int].group
            &&& lp.group_index < 64
            &&& bit_set(cores[lp.core_id as int].mask, lp.group_index as nat)
            &&& lp.index as int == (lp.group as int * 64 + lp.group_index as int) % 0x1_0000_0000
        } by {
            if k < prev.len() {
                assert(all[k] == prev[k]);
            } else {
                let m = k - prev.len();
                assert(all[k] == last[m]);
                assert(last[m] == core_lp(i, e, die, pkg, set_bits_below(e.mask, 64), m));
                assert(all[k].core_id as int == i);
                let bits = set_bits_below(e.mask, 64);
                assert(bits[m] < 64 && bit_set(e.mask, bits[m]));
            }
        }
    }
}

proof fn lemma_set_bits_members(mask: u64, n: nat)
    ensures
        forall|j: int| 0 <= j < set_bits_below(mask, n).len() ==> #[trigger] set_bits_below(mask, n)[j] < n
            && bit_set(mask, set_bits_below(mask, n)[j]),
    decreases n,
{
    if n > 0 {
        let m = (n - 1) as nat;
        lemma_set_bits_members(mask, m);
        let r = set_bits_below(mask, m);
        let all = set_bits_below(mask, n);
        assert forall|j: int| 0 <= j < all.len() implies #[trigger] all[j] < n && bit_set(mask, all[j]) by {
            if j < r.len() {
                assert(all[j] == r[j]);
            }
        }
    }
}

proof fn lemma_set_bits_len(mask: u64, n: nat)
    ensures
        set_bits_below(mask, n).len() <= n,
    decreases n,
{
    if n > 0 {
        lemma_set_bits_len(mask, (n - 1) as nat);
    }
}

fn copy_u32s(v: &Vec<u32>) -> (r: Vec<u32>)
    ensures
        r@ == v@,
{
    let mut r: Vec<u32> = Vec::new();
    let mut i: usize = 0;
    while i < v.len()
        invariant
            i <= v@.len(),
            r@ == v@.subrange(0, i as int),
        decreases v.len() - i,
    {
        r.push(v[i]);
        i = i + 1;
        assert(r@ =~= v@.subrange(0, i as int));
    }
    assert(r@ =~= v@);
    r
}

// =========================================================================
// Dies from CPUID readings (AMD)
// =========================================================================

/// CPUID leaf of AMD's processor topology enumeration (ECX[7:0] = node /
/// CCD, EAX = x2APIC id).
pub const CPUID_AMD_TOPOLOGY_ENUM: u32 = 0x8000_001E;
/// CPUID leaf of AMD's extended APIC id (ECX[15:8] = die on some older
/// parts).
pub const CPUID_AMD_EXT_TOPOLOGY: u32 = 0x8000_0026;

/// What the probe read on one logical processor (`ok` = the thread could
/// be pinned there).
#[derive(Clone, Copy, Debug)]
pub struct LpProbe {
    pub node_id: u32,
    pub die_id_26: u32,
    pub x2apic: u32,
    pub ok: bool,
}

/// The probe only runs on AMD processors, with 1 to 64 logical processors
/// (one affinity mask).
pub fn die_probe_applicable(vendor: &str, total_lps: u32) -> (b: bool)
    ensures
        b == (vendor@ == "AuthenticAMD"@ && 1 <= total_lps <= 64),
{
    crate::text::str_eq(vendor, "AuthenticAMD") && 1 <= total_lps && total_lps <= 64
}

/// Which reading a method uses.
#[derive(Clone, Copy, Debug, PartialEq, Eq, Structural)]
pub enum ProbeField {
    Node,
    Die,
}

pub open spec fn field_of(p: LpProbe, f: ProbeField) -> u32 {
    match f {
        ProbeField::Node => p.node_id,
        ProbeField::Die => p.die_id_26,
    }
}

/// The readings of one field per processor (`u32::MAX` where the thread
/// could not be pinned).
pub open spec fn field_map(probes: Seq<LpProbe>, f: ProbeField) -> Seq<u32> {
    probes.map_values(|p: LpProbe| if p.ok { field_of(p, f) } else { u32::MAX })
}

/// Two pinned processors read different values.
pub open spec fn field_varies(probes: Seq<LpProbe>, f: ProbeField) -> bool {
    exists|i: int, j: int| 0 <= i < probes.len() && 0 <= j < probes.len() && probes[i].ok && probes[j].ok
        && #[trigger] field_of(probes[i], f) != #[trigger] field_of(probes[j], f)
}

/// The x2APIC ids of the pinned processors, in order.
pub open spec fn ok_x2apics(probes: Seq<LpProbe>) -> Seq<u32>
    decreases probes.len(),
{
    if probes.len() == 0 {
        Seq::empty()
    } else {
        let r = ok_x2apics(probes.drop_last());
        if probes.last().ok { r.push(probes.last().x2apic) } else { r }
    }
}

pub open spec fn seq_min(s: Seq<u32>) -> u32
    decreases s.len(),
{
    if s.len() <= 1 {
        if s.len() == 1 { s[0] } else { 0 }
    } else {
        let m = seq_min(s.drop_last());
        if s.last() < m { s.last() } else { m }
    }
}

pub open spec fn seq_max(s: Seq<u32>) -> u32
    decreases s.len(),
{
    if s.len() <= 1 {
        if s.len() == 1 { s[0] } else { 0 }
    } else {
        let m = seq_max(s.drop_last());
        if s.last() > m { s.last() } else { m }
    }
}

/// Position of the highest set bit (0 for 0 and 1).
pub open spec fn floor_log2(n: nat) -> nat
    decreases n,
{
    if n <= 1 { 0 } else { 1 + floor_log2(n / 2) }
}

/// How many pinned processors have bit `b` of their x2APIC id equal to
/// `v`.
pub open spec fn count_bit(xs: Seq<u32>, b: u32, v: u32) -> nat
    decreases xs.len(),
{
    if xs.len() == 0 {
        0
    } else {
        count_bit(xs.drop_last(), b, v) + (if (xs.last() >> b) & 1 == v { 1nat } else { 0nat })
    }
}

/// The highest bit from `b` down to 1 whose 0 and 1 populations each hold
/// at least a quarter of the pinned processors.
pub open spec fn bucket_bit_from(xs: Seq<u32>, b: u32) -> Option<u32>
    decreases b,
{
    if b == 0 {
        None
    } else if count_bit(xs, b, 0) >= xs.len() / 4 && count_bit(xs, b, 1) >= xs.len() / 4 {
        Some(b)
    } else {
        bucket_bit_from(xs, (b - 1) as u32)
    }
}

/// The x2APIC method: at least 16 pinned processors whose x2APIC ids are
/// contiguous (span = number of distinct ids, at least 16); the split bit
/// is the highest bit below the span's top bit that splits them into two
/// populations of at least a quarter each.
pub open spec fn x2apic_bucket_bit(probes: Seq<LpProbe>) -> Option<u32> {
    let xs = ok_x2apics(probes);
    let u = distinct_values(xs);
    let span = seq_max(u) as int - seq_min(u) as int + 1;
    if xs.len() >= 16 && span == u.len() && span >= 16 {
        bucket_bit_from(xs, floor_log2(span as nat) as u32)
    } else {
        None
    }
}

pub open spec fn bucket_map(probes: Seq<LpProbe>, bit: u32) -> Seq<u32> {
    probes.map_values(|p: LpProbe| if p.ok { (p.x2apic >> bit) & 1 } else { u32::MAX })
}

/// The even split: at least 16 processors, an even count, at least 80%
/// of them pinned, and halves of at least 8: the lower half is die 0.
pub open spec fn even_split_applies(probes: Seq<LpProbe>) -> bool {
    let total = probes.len();
    let ok = ok_x2apics(probes).len();
    let okm = if ok == 0 { 1 } else { ok };
    total >= 16 && total % 2 == 0 && okm * 5 >= total * 4 && total / 2 >= 8
}

pub open spec fn even_split_map(n: nat) -> Seq<u32> {
    Seq::new(n, |i: int| if i < n / 2 { 0u32 } else { 1u32 })
}

/// The die of each logical processor from the probe readings, trying in
/// order: the node id (when the node ids differ), the extended die id
/// (when those differ), the x2APIC high-bit split, the even split. None
/// means the Windows die relations are used instead.
pub open spec fn die_map_spec(max_ext: u32, probes: Seq<LpProbe>) -> Option<Seq<u32>> {
    if max_ext >= CPUID_AMD_TOPOLOGY_ENUM && field_varies(probes, ProbeField::Node) {
        Some(field_map(probes, ProbeField::Node))
    } else if max_ext >= CPUID_AMD_EXT_TOPOLOGY && field_varies(probes, ProbeField::Die) {
        Some(field_map(probes, ProbeField::Die))
    } else if max_ext >= CPUID_AMD_TOPOLOGY_ENUM && x2apic_bucket_bit(probes) is Some {
        Some(bucket_map(probes, x2apic_bucket_bit(probes)->0))
    } else if even_split_applies(probes) {
        Some(even_split_map(probes.len()))
    } else {
        None
    }
}

fn read_field(p: LpProbe, f: ProbeField) -> (v: u32)
    ensures
        v == field_of(p, f),
{
    match f {
        ProbeField::Node => p.node_id,
        ProbeField::Die => p.die_id_26,
    }
}

/// The per-processor map of one field, and whether it varies.
fn field_method(probes: &[LpProbe], f: ProbeField) -> (r: (Vec<u32>, bool))
    ensures
        r.0@ == field_map(probes@, f),
        r.1 == field_varies(probes@, f),
{
    let mut out: Vec<u32> = Vec::new();
    let mut varies = false;
    let mut first: Option<usize> = None;
    let mut i: usize = 0;
    while i < probes.len()
        invariant
            i <= probes@.len(),
            out@ == field_map(probes@, f).subrange(0, i as int),
            first matches Some(k) ==> k < i && probes@[k as int].ok,
            first is None ==> forall|k: int| 0 <= k < i ==> !probes@[k].ok,
            varies <==> exists|a: int, b: int| 0 <= a < i && 0 <= b < i && probes@[a].ok && probes@[b].ok
                && #[trigger] field_of(probes@[a], f) != #[trigger] field_of(probes@[b], f),
            !varies ==> (first matches Some(k) ==> forall|a: int| 0 <= a < i && probes@[a].ok
                ==> field_of(probes@[a], f) == field_of(probes@[k as int], f)),
        decreases probes.len() - i,
    {
        let p = probes[i];
        if p.ok {
            let v = read_field(p, f);
            out.push(v);
            match first {
                Some(k) => {
                    let w = read_field(probes[k], f);
                    if v != w {
                        varies = true;
                        assert(field_of(probes@[i as int], f) != field_of(probes@[k as int], f));
                    }
                },
                None => {
                    first = Some(i);
                },
            }
        } else {
            out.push(u32::MAX);
        }
        i = i + 1;
        assert(out@ =~= field_map(probes@, f).subrange(0, i as int));
    }
    assert(out@ =~= field_map(probes@, f));
    (out, varies)
}

fn ok_x2apics_exec(probes: &[LpProbe]) -> (xs: Vec<u32>)
    ensures
        xs@ == ok_x2apics(probes@),
{
    let mut xs: Vec<u32> = Vec::new();
    let mut i: usize = 0;
    while i < probes.len()
        invariant
            i <= probes@.len(),
            xs@ == ok_x2apics(probes@.subrange(0, i as int)),
        decreases probes.len() - i,
    {
        proof {
            let sub = probes@.subrange(0, i + 1);
            assert(sub.drop_last() =~= probes@.subrange(0, i as int));
        }
        if probes[i].ok {
            xs.push(probes[i].x2apic);
        }
        i = i + 1;
    }
    assert(probes@.subrange(0, i as int) =~= probes@);
    xs
}

fn min_max_exec(s: &Vec<u32>) -> (r: (u32, u32))
    ensures
        r.0 == seq_min(s@),
        r.1 == seq_max(s@),
{
    if s.len() == 0 {
        return (0, 0);
    }
    let mut lo = s[0];
    let mut hi = s[0];
    let mut i: usize = 1;
    assert(s@.subrange(0, 1).len() == 1);
    while i < s.len()
        invariant
            1 <= i <= s@.len(),
            lo == seq_min(s@.subrange(0, i as int)),
            hi == seq_max(s@.subrange(0, i as int)),
        decreases s.len() - i,
    {
        proof {
            let sub = s@.subrange(0, i + 1);
            assert(sub.drop_last() =~= s@.subrange(0, i as int));
        }
        if s[i] < lo {
            lo = s[i];
        }
        if s[i] > hi {
            hi = s[i];
        }
        i = i + 1;
    }
    assert(s@.subrange(0, i as int) =~= s@);
    (lo, hi)
}

fn floor_log2_exec(n: u64) -> (r: u32)
    requires
        n <= 64,
    ensures
        r as nat == floor_log2(n as nat),
        r < 32,
{
    proof {
        lemma_floor_log2_small(n as nat);
    }
    let mut m = n;
    let mut r: u32 = 0;
    while m > 1
        invariant
            floor_log2(n as nat) == r + floor_log2(m as nat),
            floor_log2(n as nat) < 32,
        decreases m,
    {
        m = m / 2;
        r = r + 1;
    }
    r
}

fn count_bit_exec(xs: &Vec<u32>, b: u32, v: u32) -> (c: usize)
    requires
        b < 32,
    ensures
        c == count_bit(xs@, b, v),
{
    let mut c: usize = 0;
    let mut i: usize = 0;
    while i < xs.len()
        invariant
            b < 32,
            i <= xs@.len(),
            c == count_bit(xs@.subrange(0, i as int), b, v),
            c <= i,
        decreases xs.len() - i,
    {
        proof {
            let sub = xs@.subrange(0, i + 1);
            assert(sub.drop_last() =~= xs@.subrange(0, i as int));
        }
        if (xs[i] >> b) & 1 == v {
            c = c + 1;
        }
        i = i + 1;
    }
    assert(xs@.subrange(0, i as int) =~= xs@);
    c
}

fn bucket_bit_exec(xs: &Vec<u32>, top: u32) -> (r: Option<u32>)
    requires
        top < 32,
    ensures
        r == bucket_bit_from(xs@, top),
        r matches Some(b) ==> b <= top,
{
    let threshold = xs.len() / 4;
    let mut b = top;
    while b >= 1
        invariant
            b <= top < 32,
            threshold == xs@.len() / 4,
            bucket_bit_from(xs@, top) == bucket_bit_from(xs@, b),
        decreases b,
    {
        let zeros = count_bit_exec(xs, b, 0);
        let ones = count_bit_exec(xs, b, 1);
        if zeros >= threshold && ones >= threshold {
            return Some(b);
        }
        b = b - 1;
    }
    None
}

/// The die of each logical processor from the probe readings (see
/// `die_map_spec` for the order of the methods); None when no method
/// applies.
pub fn die_map_from_probes(max_ext: u32, probes: &[LpProbe]) -> (r: Option<Vec<u32>>)
    requires
        probes@.len() <= 64,
    ensures
        opt_seq(r) == die_map_spec(max_ext, probes@),
{
    if max_ext >= CPUID_AMD_TOPOLOGY_ENUM {
        let (m, varies) = field_method(probes, ProbeField::Node);
        if varies {
            return Some(m);
        }
    }
    if max_ext >= CPUID_AMD_EXT_TOPOLOGY {
        let (m, varies) = field_method(probes, ProbeField::Die);
        if varies {
            return Some(m);
        }
    }
    let xs = ok_x2apics_exec(probes);
    proof {
        lemma_ok_x2apics_len(probes@);
    }
    if max_ext >= CPUID_AMD_TOPOLOGY_ENUM && xs.len() >= 16 {
        let u = distinct_exec(&xs);
        let (lo, hi) = min_max_exec(&u);
        proof {
            lemma_distinct_len(xs@);
            lemma_min_le_max(u@);
        }
        let span: u64 = (hi as u64) - (lo as u64) + 1;
        if span == (u.len() as u64) && span >= 16 {
            let top = floor_log2_exec(span);
            let found = bucket_bit_exec(&xs, top);
            if let Some(bit) = found {
                let mut out: Vec<u32> = Vec::new();
                let mut i: usize = 0;
                while i < probes.len()
                    invariant
                        i <= probes@.len(),
                        bit < 32,
                        out@ == bucket_map(probes@, bit).subrange(0, i as int),
                    decreases probes.len() - i,
                {
                    let p = probes[i];
                    if p.ok {
                        out.push((p.x2apic >> bit) & 1);
                    } else {
                        out.push(u32::MAX);
                    }
                    i = i + 1;
                    assert(out@ =~= bucket_map(probes@, bit).subrange(0, i as int));
                }
                assert(out@ =~= bucket_map(probes@, bit));
                return Some(out);
            }
        }
    }
    let total = probes.len();
    let ok = xs.len();
    let okm: usize = if ok == 0 { 1 } else { ok };
    if total >= 16 && total % 2 == 0 && okm * 5 >= total * 4 && total / 2 >= 8 {
        let half = total / 2;
        let mut out: Vec<u32> = Vec::new();
        let mut i: usize = 0;
        while i < total
            invariant
                total == probes@.len(),
                half == total / 2,
                i <= total,
                out@ == even_split_map(total as nat).subrange(0, i as int),
            decreases total - i,
        {
            if i < half {
                out.push(0);
            } else {
                out.push(1);
            }
            i = i + 1;
            assert(out@ =~= even_split_map(total as nat).subrange(0, i as int));
        }
        assert(out@ =~= even_split_map(total as nat));
        return Some(out);
    }
    None
}

proof fn lemma_ok_x2apics_len(probes: Seq<LpProbe>)
    ensures
        ok_x2apics(probes).len() <= probes.len(),
    decreases probes.len(),
{
    if probes.len() > 0 {
        lemma_ok_x2apics_len(probes.drop_last());
    }
}

proof fn lemma_min_le_max(s: Seq<u32>)
    ensures
        seq_min(s) <= seq_max(s),
    decreases s.len(),
{
    if s.len() > 1 {
        lemma_min_le_max(s.drop_last());
    }
}

proof fn lemma_floor_log2_small(n: nat)
    requires
        n <= 64,
    ensures
        floor_log2(n) < 32,
{
    assert(floor_log2(n) <= 6) by {
        lemma_floor_log2_mono(n, 64);
        assert(floor_log2(64) == 6) by {
            reveal_with_fuel(floor_log2, 8);
        }
    }
}

proof fn lemma_floor_log2_mono(a: nat, b: nat)
    requires
        a <= b,
    ensures
        floor_log2(a) <= floor_log2(b),
    decreases b,
{
    if a > 1 {
        lemma_floor_log2_mono(a / 2, b / 2);
    }
}

// =========================================================================
// Hardware signature and cache
// =========================================================================

/// Family and model from CPUID leaf 1 EAX: the extended family is added
/// for base family 0Fh, the extended model is prefixed for families 06h
/// and 0Fh.
pub open spec fn family_model_spec(eax: u32) -> (u32, u32) {
    let base_family = (eax >> 8u32) & 0xF;
    let ext_family = (eax >> 20u32) & 0xFF;
    let family = if base_family == 0x0F { (base_family + ext_family) as u32 } else { base_family };
    let base_model = (eax >> 4u32) & 0xF;
    let ext_model = (eax >> 16u32) & 0xF;
    let model = if base_family == 0x06 || base_family == 0x0F { (ext_model << 4u32) | base_model } else { base_model };
    (family, model)
}

pub fn family_model(eax: u32) -> (r: (u32, u32))
    ensures
        r == family_model_spec(eax),
{
    let base_family = (eax >> 8u32) & 0xF;
    let ext_family = (eax >> 20u32) & 0xFF;
    assert(base_family <= 0xF && ext_family <= 0xFF) by (bit_vector)
        requires
            base_family == (eax >> 8u32) & 0xF,
            ext_family == (eax >> 20u32) & 0xFF,
    ;
    let family = if base_family == 0x0F { base_family + ext_family } else { base_family };
    let base_model = (eax >> 4u32) & 0xF;
    let ext_model = (eax >> 16u32) & 0xF;
    let model = if base_family == 0x06 || base_family == 0x0F { (ext_model << 4u32) | base_model } else { base_model };
    (family, model)
}

/// The vendor text of CPUID leaf 0: EBX, EDX, ECX as little-endian bytes.
pub open spec fn vendor_bytes_spec(ebx: u32, edx: u32, ecx: u32) -> Seq<u8> {
    le_bytes(ebx) + le_bytes(edx) + le_bytes(ecx)
}

pub open spec fn le_bytes(v: u32) -> Seq<u8> {
    seq![(v & 0xFF) as u8, ((v >> 8u32) & 0xFF) as u8, ((v >> 16u32) & 0xFF) as u8, ((v >> 24u32) & 0xFF) as u8]
}

fn push_le_bytes(v: u32, out: &mut Vec<u8>)
    ensures
        final(out)@ == old(out)@ + le_bytes(v),
{
    out.push((v & 0xFF) as u8);
    out.push(((v >> 8u32) & 0xFF) as u8);
    out.push(((v >> 16u32) & 0xFF) as u8);
    out.push(((v >> 24u32) & 0xFF) as u8);
    assert(final(out)@ =~= old(out)@ + le_bytes(v));
}

pub fn vendor_bytes(ebx: u32, edx: u32, ecx: u32) -> (b: Vec<u8>)
    ensures
        b@ == vendor_bytes_spec(ebx, edx, ecx),
{
    let mut b: Vec<u8> = Vec::new();
    push_le_bytes(ebx, &mut b);
    push_le_bytes(edx, &mut b);
    push_le_bytes(ecx, &mut b);
    assert(b@ =~= vendor_bytes_spec(ebx, edx, ecx));
    b
}

/// The fast hardware signature: `vendor-FAMILY-MODEL-lps`, family and
/// model in uppercase hex, the logical processor count in decimal. A
/// cached topology is only used when the signature still matches.
pub open spec fn hw_signature_spec(vendor: Seq<char>, family: u32, model: u32, total_lps: u32) -> Seq<char> {
    vendor + seq!['-'] + crate::procwin::hex_upper(family as nat) + seq!['-'] + crate::procwin::hex_upper(model as nat)
        + seq!['-'] + crate::text::decimal_text(total_lps as nat)
}

pub fn hw_signature(vendor: &str, family: u32, model: u32, total_lps: u32) -> (s: String)
    ensures
        s@ == hw_signature_spec(vendor@, family, model, total_lps),
{
    let mut out = crate::text::chars_of(vendor);
    out.push('-');
    crate::procwin::push_hex_upper(family as u64, &mut out);
    out.push('-');
    crate::procwin::push_hex_upper(model as u64, &mut out);
    out.push('-');
    crate::text::push_decimal(total_lps as u128, &mut out);
    assert(out@ =~= hw_signature_spec(vendor@, family, model, total_lps));
    crate::text::string_from_chars(out.as_slice())
}

/// A cached topology and the signature of the machine it was detected on.
#[derive(Debug)]
pub struct TopologyCache {
    pub hw_signature: String,
    /// Unix seconds when it was written (informational).
    pub ts_secs: u64,
    pub topology: CpuTopology,
}

/// A cache read from disk is used only when its signature matches this
/// machine's (a changed CPU or board invalidates it).
pub fn usable_cache(cache: Option<TopologyCache>, expected_signature: &str) -> (r: Option<TopologyCache>)
    ensures
        match cache {
            Some(c) => if c.hw_signature@ == expected_signature@ { r == Some(c) } else { r is None },
            None => r is None,
        },
{
    match cache {
        Some(c) => {
            if crate::text::str_eq(c.hw_signature.as_str(), expected_signature) {
                Some(c)
            } else {
                None
            }
        },
        None => None,
    }
}

/// Die relations are collected once each (the same group and mask may be
/// reported by both the die and the module relation).
pub fn add_die_candidate(list: &mut Vec<GroupMaskEntry>, group: u16, mask: u64)
    ensures
        (exists|i: int| 0 <= i < old(list)@.len() && (#[trigger] old(list)@[i]).group == group && old(list)@[i].mask == mask)
            ==> final(list)@ == old(list)@,
        !(exists|i: int| 0 <= i < old(list)@.len() && (#[trigger] old(list)@[i]).group == group && old(list)@[i].mask == mask)
            ==> final(list)@ == old(list)@.push(GroupMaskEntry { group: group, mask: mask }),
{
    let mut i: usize = 0;
    while i < list.len()
        invariant
            i <= list@.len(),
            list@ == old(list)@,
            forall|k: int| 0 <= k < i ==> !((#[trigger] list@[k]).group == group && list@[k].mask == mask),
        decreases list.len() - i,
    {
        if list[i].group == group && list[i].mask == mask {
            return;
        }
        i = i + 1;
    }
    list.push(GroupMaskEntry { group, mask });
}

} // verus!
