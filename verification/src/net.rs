//! IP addresses as plain values (octets in network order): their order and
//! prefix masks.

use vstd::prelude::*;

verus! {

/// An IPv4 or IPv6 address, by its octets (network order).
#[derive(Clone, Copy, Debug)]
pub enum IpAddr {
    V4([u8; 4]),
    V6([u8; 16]),
}

impl IpAddr {
    pub open spec fn octets_view(&self) -> Seq<u8> {
        match self {
            IpAddr::V4(o) => o@,
            IpAddr::V6(o) => o@,
        }
    }

    pub open spec fn spec_is_ipv4(&self) -> bool {
        self is V4
    }

    /// Whether this is an IPv4 address.
    pub fn is_ipv4(&self) -> (r: bool)
        ensures
            r == self.spec_is_ipv4(),
    {
        match self {
            IpAddr::V4(_) => true,
            IpAddr::V6(_) => false,
        }
    }
}

/// `a` comes before `b` in lexicographic order.
pub open spec fn lex_lt(a: Seq<u8>, b: Seq<u8>) -> bool
    decreases a.len(),
{
    if a.len() == 0 || b.len() == 0 {
        a.len() < b.len()
    } else if a[0] != b[0] {
        a[0] < b[0]
    } else {
        lex_lt(a.drop_first(), b.drop_first())
    }
}

/// The order of `std::net::IpAddr`: IPv4 addresses before IPv6 ones, and
/// within each family the numeric order, which is that of the octets.
pub open spec fn ip_lt(a: IpAddr, b: IpAddr) -> bool {
    match (a, b) {
        (IpAddr::V4(_), IpAddr::V6(_)) => true,
        (IpAddr::V6(_), IpAddr::V4(_)) => false,
        _ => lex_lt(a.octets_view(), b.octets_view()),
    }
}

proof fn lemma_lex_lt_prefix(a: Seq<u8>, b: Seq<u8>, i: int)
    requires
        a.len() == b.len(),
        0 <= i <= a.len(),
        forall|k: int| 0 <= k < i ==> a[k] == b[k],
    ensures
        lex_lt(a, b) == lex_lt(a.subrange(i, a.len() as int), b.subrange(i, b.len() as int)),
    decreases i,
{
    if i > 0 {
        assert(a[0] == b[0]);
        lemma_lex_lt_prefix(a.drop_first(), b.drop_first(), i - 1);
        assert(a.drop_first().subrange(i - 1, a.len() - 1) =~= a.subrange(i, a.len() as int));
        assert(b.drop_first().subrange(i - 1, b.len() - 1) =~= b.subrange(i, b.len() as int));
    } else {
        assert(a.subrange(0, a.len() as int) =~= a);
        assert(b.subrange(0, b.len() as int) =~= b);
    }
}

fn octets_lt(a: &[u8], b: &[u8]) -> (r: bool)
    requires
        a@.len() == b@.len(),
    ensures
        r == lex_lt(a@, b@),
{
    let mut i: usize = 0;
    while i < a.len()
        invariant
            i <= a@.len() == b@.len(),
            forall|k: int| 0 <= k < i ==> a@[k] == b@[k],
        decreases a.len() - i,
    {
        if a[i] != b[i] {
            proof {
                lemma_lex_lt_prefix(a@, b@, i as int);
                let sa = a@.subrange(i as int, a@.len() as int);
                let sb = b@.subrange(i as int, b@.len() as int);
                assert(sa[0] == a@[i as int] && sb[0] == b@[i as int]);
            }
            return a[i] < b[i];
        }
        i = i + 1;
    }
    proof {
        lemma_lex_lt_prefix(a@, b@, a@.len() as int);
    }
    false
}

/// Whether `a` comes before `b` in the order of `std::net::IpAddr`.
pub fn ip_less(a: &IpAddr, b: &IpAddr) -> (r: bool)
    ensures
        r == ip_lt(*a, *b),
{
    match (a, b) {
        (IpAddr::V4(_), IpAddr::V6(_)) => true,
        (IpAddr::V6(_), IpAddr::V4(_)) => false,
        (IpAddr::V4(x), IpAddr::V4(y)) => octets_lt(x, y),
        (IpAddr::V6(x), IpAddr::V6(y)) => octets_lt(x, y),
    }
}

/// Bit `j` of an address (0 is the most significant bit of the first
/// octet).
pub open spec fn bit_of(octets: Seq<u8>, j: int) -> bool {
    top_bit(octets[j / 8], (j % 8) as u8)
}

/// Bit `t` of an octet, counted from the most significant one.
pub open spec fn top_bit(b: u8, t: u8) -> bool {
    (b >> ((7 - t) as u8)) & 1 == 1
}

/// The mask of a prefix of `cidr` bits over `n` octets: its first `cidr`
/// bits are set, the others clear.
pub open spec fn is_prefix_mask(mask: Seq<u8>, n: nat, cidr: nat) -> bool {
    &&& mask.len() == n
    &&& forall|j: int| 0 <= j < 8 * n ==> #[trigger] bit_of(mask, j) == (j < cidr)
}

/// One octet of a prefix mask, with `k` of its bits set (from the top).
fn mask_octet(k: u8) -> (r: u8)
    requires
        k <= 8,
    ensures
        forall|t: u8| t < 8 ==> #[trigger] top_bit(r, t) == (t < k),
{
    let r: u8 = if k == 0 {
        0
    } else {
        ((0xffu32 << ((8 - k) as u32)) & 0xff) as u8
    };
    proof {
        assert forall|t: u8| t < 8 implies #[trigger] top_bit(r, t) == (t < k) by {
            assert(((r >> ((7 - t) as u8)) & 1 == 1) == (t < k)) by (bit_vector)
                requires
                    t < 8,
                    k <= 8,
                    r == (if k == 0 { 0u8 } else { ((0xffu32 << ((8 - k) as u32)) & 0xff) as u8 });
        }
    }
    r
}

/// The octets of the prefix mask of `cidr` bits, over `n` octets.
fn prefix_mask(n: usize, cidr: u8) -> (r: Vec<u8>)
    requires
        n <= 16,
        cidr as nat <= 8 * n,
    ensures
        is_prefix_mask(r@, n as nat, cidr as nat),
{
    let mut r: Vec<u8> = Vec::new();
    let mut i: usize = 0;
    while i < n
        invariant
            i <= n <= 16,
            cidr as nat <= 8 * n,
            r@.len() == i,
            forall|j: int| 0 <= j < 8 * i ==> #[trigger] bit_of(r@, j) == (j < cidr),
        decreases n - i,
    {
        let lo: u32 = 8 * (i as u32);
        let k: u8 = if (cidr as u32) >= lo + 8 {
            8
        } else if (cidr as u32) <= lo {
            0
        } else {
            ((cidr as u32) - lo) as u8
        };
        let b = mask_octet(k);
        let ghost before = r@;
        r.push(b);
        proof {
            assert forall|j: int| 0 <= j < 8 * (i + 1) implies #[trigger] bit_of(r@, j) == (j < cidr) by {
                if j < 8 * i {
                    assert(j / 8 < i) by (nonlinear_arith)
                        requires 0 <= j < 8 * i;
                    assert(r@[j / 8] == before[j / 8]);
                    assert(bit_of(r@, j) == bit_of(before, j));
                } else {
                    assert(j / 8 == i && 0 <= j % 8 < 8) by (nonlinear_arith)
                        requires 8 * i <= j < 8 * (i + 1);
                    let t = (j % 8) as u8;
                    assert(top_bit(b, t) == (t < k));
                    assert(j == 8 * i + t) by (nonlinear_arith)
                        requires j / 8 == i, t == j % 8;
                }
            }
        }
        i = i + 1;
    }
    r
}

/// The netmask of a prefix: the first `cidr` bits of the address family's
/// width set.
pub fn netmask(v6: bool, cidr: u8) -> (r: IpAddr)
    requires
        cidr <= (if v6 { 128u8 } else { 32u8 }),
    ensures
        v6 ==> (r matches IpAddr::V6(o) && is_prefix_mask(o@, 16, cidr as nat)),
        !v6 ==> (r matches IpAddr::V4(o) && is_prefix_mask(o@, 4, cidr as nat)),
{
    if v6 {
        let m = prefix_mask(16, cidr);
        let mut o = [0u8; 16];
        let mut i: usize = 0;
        while i < 16
            invariant
                i <= 16,
                m@.len() == 16,
                forall|k: int| 0 <= k < i ==> o@[k] == m@[k],
            decreases 16 - i,
        {
            o[i] = m[i];
            i = i + 1;
        }
        proof {
            assert(o@ =~= m@);
        }
        IpAddr::V6(o)
    } else {
        let m = prefix_mask(4, cidr);
        let mut o = [0u8; 4];
        let mut i: usize = 0;
        while i < 4
            invariant
                i <= 4,
                m@.len() == 4,
                forall|k: int| 0 <= k < i ==> o@[k] == m@[k],
            decreases 4 - i,
        {
            o[i] = m[i];
            i = i + 1;
        }
        proof {
            assert(o@ =~= m@);
        }
        IpAddr::V4(o)
    }
}

} // verus!
