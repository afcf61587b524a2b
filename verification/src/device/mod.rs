//! Device-level logic: peer index allocation and packet handling decisions.

pub mod allowed_ips;
pub mod peer;
pub mod peers;
pub mod packet;
pub mod noise;
pub mod flow;
pub mod sys;
pub mod script_run;

use vstd::prelude::*;
use crate::crypto::random_u32;

verus! {

/// `std::io::Error`, carried by `Error::ApiSocket`.
#[verifier::external_type_specification]
#[verifier::external_body]
pub struct ExIoError(std::io::Error);

/// What can go wrong bringing a device up.
#[derive(Debug)]
pub enum Error {
    Socket(String),
    Bind(String),
    FCntl(String),
    EventQueue(String),
    IOCtl(String),
    Connect(String),
    SetSockOpt(String),
    InvalidTunnelName,
    GetSockOpt(String),
    GetSockName(String),
    UDPRead(i32),
    Timer(String),
    IfaceRead(i32),
    DropPrivileges(String),
    ApiSocket(std::io::Error),
}

/// Whether the process may create the tunnel device. The Windows service
/// runs with the rights it needs and always may.
pub fn check_permission() -> (r: bool)
    ensures
        r,
{
    true
}

/// Largest 24-bit value; peer indexes live in `1..=LFSR_MAX`.
pub const LFSR_MAX: u32 = 0xffffff;

/// Feedback polynomial of the index register.
pub const LFSR_POLY: u32 = 0xd80000;

/// One step of the xorshift register: shift right, and fold the polynomial
/// in when the bit shifted out was set.
pub open spec fn lfsr_step(x: u32) -> u32 {
    if x & 1 == 1 {
        (x >> 1) ^ LFSR_POLY
    } else {
        x >> 1
    }
}

/// The register after `n` steps from `s`.
pub open spec fn lfsr_iter(s: u32, n: nat) -> u32
    decreases n,
{
    if n == 0 {
        s
    } else {
        lfsr_step(lfsr_iter(s, (n - 1) as nat))
    }
}

/// The peer index handed out when the register holds `s`.
pub open spec fn lfsr_index(s: u32, mask: u32) -> u32 {
    ((s - 1) as u32) ^ mask
}

/// A value the register may hold: a nonzero 24-bit number.
pub open spec fn lfsr_valid(x: u32) -> bool {
    1 <= x <= LFSR_MAX
}

/// A basic linear-feedback shift register implemented as xorshift, used to
/// distribute peer indexes across the 24-bit address space reserved for peer
/// identification.
pub struct IndexLfsr {
    pub initial: u32,
    pub lfsr: u32,
    pub mask: u32,
    /// How many indexes were handed out since the start.
    pub steps: Ghost<nat>,
}

impl IndexLfsr {
    /// Well-formed: the register and its start are nonzero 24-bit values and
    /// the mask is a 24-bit value.
    pub open spec fn wf(&self) -> bool {
        &&& lfsr_valid(self.initial)
        &&& lfsr_valid(self.lfsr)
        &&& self.mask <= LFSR_MAX
        &&& self.lfsr == lfsr_iter(self.initial, self.steps@)
        &&& forall|t: nat| 1 <= t <= self.steps@ ==> #[trigger] lfsr_iter(self.initial, t) != self.initial
    }

    /// `idx` was handed out at some step so far.
    pub open spec fn issued(&self, idx: u32) -> bool {
        exists|t: nat| t < self.steps@ && #[trigger] self.index_at(t) == idx
    }

    /// The index handed out at step `t`.
    pub open spec fn index_at(&self, t: nat) -> u32 {
        lfsr_index(lfsr_iter(self.initial, t), self.mask)
    }

    /// Generates a random 24-bit nonzero integer by drawing until the low 24
    /// bits are not all zero. After 2^64 - 1 all-zero draws in a row, which
    /// no run reaches, it settles for 1.
    pub fn random_index() -> (r: u32)
        ensures
            lfsr_valid(r),
    {
        let mut attempts: u64 = 0;
        loop
            invariant
                attempts <= u64::MAX,
            decreases u64::MAX - attempts,
        {
            let r = random_u32();
            let i = r & LFSR_MAX;
            assert(r & 0xffffff <= 0xffffff) by (bit_vector);
            if i > 0 {
                return i;
            }
            if attempts == u64::MAX {
                return 1;
            }
            attempts = attempts + 1;
        }
    }

    /// Generates the next value in the pseudorandom sequence. The register
    /// must not come back to its start ("too many peers created"); that
    /// state is left out here, see `try_next`.
    pub fn next(&mut self) -> (r: u32)
        requires
            old(self).wf(),
            lfsr_step(old(self).lfsr) != old(self).initial,
        ensures
            r == lfsr_index(old(self).lfsr, old(self).mask),
            r <= LFSR_MAX,
            final(self).lfsr == lfsr_step(old(self).lfsr),
            final(self).initial == old(self).initial,
            final(self).mask == old(self).mask,
            final(self).steps@ == old(self).steps@ + 1,
            r == old(self).index_at(old(self).steps@),
            final(self).wf(),
    {
        let x = self.lfsr;
        let m = self.mask;
        let value = x - 1;
        let low = x & 1u32;
        let fold = 0u32.wrapping_sub(low);
        let n = (x >> 1) ^ (fold & LFSR_POLY);
        proof {
            lemma_lfsr_step_valid(x);
            lemma_step_expr(x, low, fold, n);
            assert(value ^ m <= 0xffffff) by (bit_vector)
                requires value <= 0xffffff, m <= 0xffffff;
        }
        self.lfsr = n;
        self.steps = Ghost((self.steps@ + 1) as nat);
        value ^ m
    }

    /// `next`, with the start-of-cycle check made: `None` exactly where the
    /// register would come back to its start.
    pub fn try_next(&mut self) -> (r: Option<u32>)
        requires
            old(self).wf(),
        ensures
            lfsr_step(old(self).lfsr) == old(self).initial ==> r is None && *final(self) == *old(self),
            lfsr_step(old(self).lfsr) != old(self).initial ==> {
                &&& r == Some(lfsr_index(old(self).lfsr, old(self).mask))
                &&& final(self).lfsr == lfsr_step(old(self).lfsr)
                &&& final(self).initial == old(self).initial
                &&& final(self).mask == old(self).mask
                &&& final(self).steps@ == old(self).steps@ + 1
            },
            final(self).wf(),
    {
        let x = self.lfsr;
        let low = x & 1u32;
        let fold = 0u32.wrapping_sub(low);
        let n = (x >> 1) ^ (fold & LFSR_POLY);
        proof {
            lemma_step_expr(x, low, fold, n);
        }
        if n == self.initial {
            None
        } else {
            Some(self.next())
        }
    }

    /// Whether the next step would bring the register back to its start,
    /// where `next` refuses to go on.
    pub fn exhausted(&self) -> (r: bool)
        ensures
            r == (lfsr_step(self.lfsr) == self.initial),
    {
        let x = self.lfsr;
        let low = x & 1u32;
        let fold = 0u32.wrapping_sub(low);
        let n = (x >> 1) ^ (fold & LFSR_POLY);
        proof {
            lemma_step_expr(x, low, fold, n);
        }
        n == self.initial
    }

    /// A fresh register: random start and random mask.
    pub fn default() -> (r: IndexLfsr)
        ensures
            r.wf(),
            r.lfsr == r.initial,
            r.steps@ == 0,
    {
        let seed = Self::random_index();
        IndexLfsr { initial: seed, lfsr: seed, mask: Self::random_index(), steps: Ghost(0) }
    }
}

/// The branch-free form of the step computes `lfsr_step`.
proof fn lemma_step_expr(x: u32, low: u32, fold: u32, n: u32)
    requires
        low == x & 1u32,
        fold == (if low == 0 { 0u32 } else { (0u32 - low + 0x1_0000_0000) as u32 }),
        n == (x >> 1) ^ (fold & 0xd80000u32),
    ensures
        n == lfsr_step(x),
{
    assert(x & 1u32 <= 1) by (bit_vector);
    assert(low == 1 ==> fold == 0xffff_ffffu32);
    assert(low == x & 1u32 && (low == 0 ==> fold == 0) && (low == 1 ==> fold == 0xffff_ffffu32)
        && n == (x >> 1) ^ (fold & 0xd80000u32)
        ==> n == (if x & 1 == 1 { (x >> 1) ^ 0xd80000u32 } else { x >> 1 })) by (bit_vector);
}

/// A step keeps the register a nonzero 24-bit value.
pub proof fn lemma_lfsr_step_valid(x: u32)
    requires
        lfsr_valid(x),
    ensures
        lfsr_valid(lfsr_step(x)),
{
    assert(1 <= x <= 0xffffff ==> (x & 1 == 1 ==> 1 <= ((x >> 1) ^ 0xd80000u32) <= 0xffffff))
        by (bit_vector);
    assert(1 <= x <= 0xffffff ==> (x & 1 != 1 ==> 1 <= (x >> 1) <= 0xffffff)) by (bit_vector);
}

/// The step is injective on 24-bit values: bit 23 of the successor tells which
/// branch was taken, and the rest gives back the predecessor.
pub proof fn lemma_lfsr_step_injective(a: u32, b: u32)
    requires
        a <= LFSR_MAX,
        b <= LFSR_MAX,
        lfsr_step(a) == lfsr_step(b),
    ensures
        a == b,
{
    let sa = lfsr_step(a);
    let sb = lfsr_step(b);
    assert(a <= 0xffffff && b <= 0xffffff
        && (if a & 1 == 1 { (a >> 1) ^ 0xd80000u32 } else { a >> 1 })
            == (if b & 1 == 1 { (b >> 1) ^ 0xd80000u32 } else { b >> 1 })
        ==> a == b) by (bit_vector);
}


/// Every state the register runs through from a valid start is valid.
pub proof fn lemma_lfsr_iter_valid(s: u32, n: nat)
    requires
        lfsr_valid(s),
    ensures
        lfsr_valid(lfsr_iter(s, n)),
    decreases n,
{
    if n > 0 {
        lemma_lfsr_iter_valid(s, (n - 1) as nat);
        lemma_lfsr_step_valid(lfsr_iter(s, (n - 1) as nat));
    }
}

proof fn lemma_states_distinct(s: u32, n: nat, i: nat, j: nat)
    requires
        lfsr_valid(s),
        forall|t: nat| 1 <= t <= n ==> #[trigger] lfsr_iter(s, t) != s,
        i < j <= n,
    ensures
        lfsr_iter(s, i) != lfsr_iter(s, j),
    decreases i,
{
    if i > 0 {
        lemma_states_distinct(s, n, (i - 1) as nat, (j - 1) as nat);
        lemma_lfsr_iter_valid(s, (i - 1) as nat);
        lemma_lfsr_iter_valid(s, (j - 1) as nat);
        if lfsr_iter(s, i) == lfsr_iter(s, j) {
            lemma_lfsr_step_injective(lfsr_iter(s, (i - 1) as nat), lfsr_iter(s, (j - 1) as nat));
        }
    } else {
        assert(lfsr_iter(s, j) != s);
    }
}

/// Law: the peer indexes a register hands out, one per step from its start
/// `s`, are pairwise distinct as long as the register has not come back to
/// `s` (which is where `next` refuses to go on).
pub proof fn law_lfsr_indexes_distinct(s: u32, mask: u32, n: nat, i: nat, j: nat)
    requires
        lfsr_valid(s),
        forall|t: nat| 1 <= t <= n ==> #[trigger] lfsr_iter(s, t) != s,
        i < j <= n,
    ensures
        lfsr_index(lfsr_iter(s, i), mask) != lfsr_index(lfsr_iter(s, j), mask),
{
    lemma_states_distinct(s, n, i, j);
    lemma_lfsr_iter_valid(s, i);
    lemma_lfsr_iter_valid(s, j);
    let a = lfsr_iter(s, i);
    let b = lfsr_iter(s, j);
    assert(1 <= a && 1 <= b && a != b ==> ((a - 1) as u32) ^ mask != ((b - 1) as u32) ^ mask)
        by (bit_vector);
}

} // verus!
