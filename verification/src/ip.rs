//! Address-range parsing: CIDR blocks and single addresses into the addresses to test.

use vstd::prelude::*;
use vstd::arithmetic::power2::{pow2, lemma2_to64};
use vstd::bits::lemma_u64_shl_is_mul;
use vstd::string::StringExecFns;
use vstd::string::StrSliceExecFns;
use core::str::FromStr;
use crate::text::{chars_of, contains_char, trim_bounds, trim, trim_start, trim_end, is_white};
use crate::traits::{LineReader, Rand, WarningSink, pick_in_range};

verus! {

/// An IP address: IPv4 as its 32-bit value, IPv6 as its 128-bit value.
#[derive(Debug, Clone, Copy, PartialEq, Eq, Structural)]
pub enum IpAddress {
    V4(u32),
    V6(u128),
}

/// A parsed network: the address exactly as written and the prefix length.
#[derive(Debug, Clone, Copy, PartialEq, Eq, Structural)]
pub enum CidrBlock {
    /// An IPv4 address and prefix length.
    V4(u32, u8),
    /// An IPv6 address and prefix length.
    V6(u128, u8),
}

/// What `ipnetwork::IpNetwork::from_str` makes of a text: its address and prefix, or nothing.
pub uninterp spec fn parsed_network(text: Seq<char>) -> Option<CidrBlock>;

/// Calls `ipnetwork::IpNetwork::from_str(text)` and keeps the network's address (as
/// written, host bits included) and prefix length; a parse error becomes `None`.
/// The contract names the result and states the prefix bound that the crate's
/// constructors enforce (at most 32 for IPv4, at most 128 for IPv6), and that a text
/// with a single `/` followed by `32` or `128` gets that prefix (`cidr_parts` splits at
/// the `/`, `parse_prefix` reads the number, and 128 exceeds the IPv4 limit); how
/// addresses are parsed is left unsaid.
#[verifier::external_body]
fn parse_network(text: &str) -> (r: Option<CidrBlock>)
    ensures
        r == parsed_network(text@),
        r matches Some(CidrBlock::V4(_, prefix)) ==> prefix <= 32,
        r matches Some(CidrBlock::V6(_, prefix)) ==> prefix <= 128,
        ends_with_mask(text@, "/32"@) ==> (r matches Some(CidrBlock::V4(_, p)) ==> p == 32),
        ends_with_mask(text@, "/32"@) ==> (r matches Some(CidrBlock::V6(_, p)) ==> p == 32),
        ends_with_mask(text@, "/128"@) && r is Some ==> (r matches Some(CidrBlock::V6(_, p)) && p == 128),
{
    match ipnetwork::IpNetwork::from_str(text) {
        Ok(ipnetwork::IpNetwork::V4(n)) => Some(CidrBlock::V4(u32::from(n.ip()), n.prefix())),
        Ok(ipnetwork::IpNetwork::V6(n)) => Some(CidrBlock::V6(u128::from(n.ip()), n.prefix())),
        Err(_) => None,
    }
}

/// Number of addresses in an IPv4 network with this prefix.
pub open spec fn v4_size(prefix: u8) -> nat {
    pow2((32 - prefix) as nat)
}

/// First address of the IPv4 network containing `addr`.
pub open spec fn v4_start(addr: u32, prefix: u8) -> int {
    addr as int - (addr as int) % (v4_size(prefix) as int)
}

/// Last (broadcast) address of the IPv4 network containing `addr`.
pub open spec fn v4_end(addr: u32, prefix: u8) -> int {
    v4_start(addr, prefix) + v4_size(prefix) - 1
}

/// The consecutive addresses `from, from + 1, ..., from + n - 1`.
pub open spec fn v4_run(from: int, n: nat) -> Seq<IpAddress> {
    Seq::new(n, |i: int| IpAddress::V4((from + i) as u32))
}

/// The IPv4 addresses listed when every address is tested: the address itself for a
/// /32, else the whole network, ascending from its first address.
pub open spec fn v4_all(addr: u32, prefix: u8) -> Seq<IpAddress> {
    if prefix >= 32 {
        seq![IpAddress::V4(addr)]
    } else {
        v4_run(v4_start(addr, prefix), v4_size(prefix))
    }
}

/// Number of /24 blocks in an IPv4 network with a prefix shorter than 24.
pub open spec fn v4_blocks(prefix: u8) -> nat {
    v4_size(prefix) / 256
}

/// The IPv4 addresses listed when sampling, with the words `draws` drawn for them: the
/// address itself and no draw for a /32; for /24 to /31 one draw, mapped onto the
/// offsets `[0, size - 1]` of the network; for shorter prefixes one draw per /24 block
/// of the network, ascending from its first block, mapped onto the block's last octet.
pub open spec fn v4_sampled(addr: u32, prefix: u8, new: Seq<IpAddress>, draws: Seq<u64>) -> bool {
    if prefix >= 32 {
        &&& new == seq![IpAddress::V4(addr)]
        &&& draws.len() == 0
    } else if prefix >= 24 {
        &&& draws.len() == 1
        &&& new == seq![
            IpAddress::V4(
                (v4_start(addr, prefix) + pick_in_range(0, v4_size(prefix) - 1, draws[0] as int)) as u32,
            ),
        ]
    } else {
        &&& draws.len() == v4_blocks(prefix)
        &&& new == Seq::new(
            v4_blocks(prefix),
            |i: int|
                IpAddress::V4(
                    (v4_start(addr, prefix) + 256 * i + pick_in_range(0, 255, draws[i] as int)) as u32,
                ),
        )
    }
}

/// Number of addresses in an IPv6 network with this prefix.
pub open spec fn v6_size(prefix: u8) -> nat {
    pow2((128 - prefix) as nat)
}

/// First address of the IPv6 network containing `addr`.
pub open spec fn v6_start(addr: u128, prefix: u8) -> int {
    addr as int - (addr as int) % (v6_size(prefix) as int)
}

/// The IPv6 address sampled from the network of `addr` with the 16-bit value `s`: the
/// last 16 bits replaced by `s` when the prefix leaves at least 16 host bits, else the
/// network's first address plus `s` reduced to its host range.
pub open spec fn v6_pick(addr: u128, prefix: u8, s: int) -> int {
    if prefix <= 112 {
        addr as int - (addr as int) % 65536 + s
    } else {
        v6_start(addr, prefix) + s % (v6_size(prefix) as int)
    }
}

/// The IPv6 addresses listed, with the words drawn for them: the address itself and no
/// draw for a /128, else two draws, each mapped onto a byte, that make the 16-bit value
/// from which one address of the network is picked.
pub open spec fn v6_sampled(addr: u128, prefix: u8, new: Seq<IpAddress>, draws: Seq<u64>) -> bool {
    if prefix >= 128 {
        &&& new == seq![IpAddress::V6(addr)]
        &&& draws.len() == 0
    } else {
        &&& draws.len() == 2
        &&& new == seq![
            IpAddress::V6(
                v6_pick(
                    addr,
                    prefix,
                    pick_in_range(0, 255, draws[0] as int) * 256 + pick_in_range(0, 255, draws[1] as int),
                ) as u128,
            ),
        ]
    }
}

/// What a parsed network contributes to the list of addresses, with the words drawn
/// for it. IPv6 networks are always sampled.
pub open spec fn network_outcome(net: CidrBlock, test_all: bool, new: Seq<IpAddress>, draws: Seq<u64>) -> bool {
    match net {
        CidrBlock::V4(addr, prefix) => if test_all {
            new == v4_all(addr, prefix) && draws.len() == 0
        } else {
            v4_sampled(addr, prefix, new, draws)
        },
        CidrBlock::V6(addr, prefix) => v6_sampled(addr, prefix, new, draws),
    }
}

/// The text handed to the network parser: as is when it holds a prefix, else with
/// `/32` (it has a `.`) or `/128` appended.
pub open spec fn with_mask(t: Seq<char>) -> Seq<char> {
    if t.contains('/') {
        t
    } else if t.contains('.') {
        t + "/32"@
    } else {
        t + "/128"@
    }
}

/// Whether `text` is a part without `/` followed by `mask`.
pub open spec fn ends_with_mask(text: Seq<char>, mask: Seq<char>) -> bool {
    &&& text.len() >= mask.len()
    &&& text.subrange(text.len() - mask.len(), text.len() as int) == mask
    &&& !text.take(text.len() - mask.len()).contains('/')
}

/// Whether an address or CIDR text is refused by the network parser.
pub open spec fn is_unparsable(text: Seq<char>) -> bool {
    parsed_network(with_mask(text)) is None
}

/// The warnings given for the pieces `ps`, in order: the trimmed text of each piece
/// that is not blank and does not parse.
pub open spec fn bad_texts(ps: Seq<Seq<char>>) -> Seq<Seq<char>>
    decreases ps.len(),
{
    if ps.len() == 0 {
        seq![]
    } else {
        bad_texts(ps.drop_last()) + piece_warning(ps.last())
    }
}

/// The warning given for one piece: its trimmed text when it is not blank and does
/// not parse, else none.
pub open spec fn piece_warning(piece: Seq<char>) -> Seq<Seq<char>> {
    if is_bad_piece(piece) {
        seq![trim(piece)]
    } else {
        seq![]
    }
}

/// Whether a sink, handed from `before` to `after`, got exactly the warnings `ws`
/// (when it keeps to the specification) and still accepts every text it accepted.
pub open spec fn warned_exactly<W: WarningSink>(before: W, after: W, ws: Seq<Seq<char>>) -> bool {
    &&& W::obeys_warning_spec() ==> after.warned() == before.warned() + ws
    &&& forall|t: &str| before.accepts(t) ==> #[trigger] after.accepts(t)
}

/// Whether a piece of an address text is reported: it is not blank after trimming
/// and the trimmed text does not parse.
pub open spec fn is_bad_piece(piece: Seq<char>) -> bool {
    trim(piece).len() > 0 && is_unparsable(trim(piece))
}

/// What one address or CIDR text contributes, with the words drawn for it: nothing
/// when it does not parse.
pub open spec fn cidr_outcome(text: Seq<char>, test_all: bool, new: Seq<IpAddress>, draws: Seq<u64>) -> bool {
    match parsed_network(with_mask(text)) {
        None => new.len() == 0 && draws.len() == 0,
        Some(net) => network_outcome(net, test_all, new, draws),
    }
}

/// The block size `2^k` of a prefix shorter than 32, and the facts the IPv4 walk needs.
proof fn lemma_v4_block(addr: u32, prefix: u8)
    requires
        prefix < 32,
    ensures
        2 <= v4_size(prefix) <= 0x1_0000_0000,
        prefix >= 24 ==> v4_size(prefix) <= 256,
        prefix < 24 ==> v4_size(prefix) >= 512 && v4_size(prefix) % 256 == 0,
        0 <= v4_start(addr, prefix) <= addr,
        v4_start(addr, prefix) % (v4_size(prefix) as int) == 0,
        v4_end(addr, prefix) <= u32::MAX,
        addr <= v4_end(addr, prefix),
{
    lemma2_to64();
    let k = (32 - prefix) as nat;
    let size = v4_size(prefix) as int;
    assert(size == pow2(k));
    vstd::arithmetic::power2::lemma_pow2_pos(k);
    if prefix > 24 {
        vstd::arithmetic::power2::lemma_pow2_strictly_increases(k, 8);
    } else if prefix < 24 {
        vstd::arithmetic::power2::lemma_pow2_adds(8, (k - 8) as nat);
        vstd::arithmetic::power2::lemma_pow2_pos((k - 8) as nat);
        vstd::arithmetic::power2::lemma_pow2_strictly_increases(0, (k - 8) as nat);
        vstd::arithmetic::div_mod::lemma_mod_multiples_basic(pow2((k - 8) as nat) as int, 256);
        assert(size == pow2((k - 8) as nat) * 256);
    }
    if k < 32 {
        vstd::arithmetic::power2::lemma_pow2_strictly_increases(k, 32);
    }
    vstd::arithmetic::power2::lemma_pow2_adds(k, (32 - k) as nat);
    let q = pow2((32 - k) as nat) as int;
    assert(size * q == 0x1_0000_0000);
    vstd::arithmetic::div_mod::lemma_fundamental_div_mod(addr as int, size);
    let d = addr as int / size;
    assert(v4_start(addr, prefix) == size * d);
    vstd::arithmetic::div_mod::lemma_mod_multiples_basic(d, size);
    vstd::arithmetic::mul::lemma_mul_is_commutative(d, size);
    vstd::arithmetic::div_mod::lemma_mod_bound(addr as int, size);
    assert(d < q) by {
        if d >= q {
            vstd::arithmetic::mul::lemma_mul_inequality(q, d, size);
            vstd::arithmetic::mul::lemma_mul_is_commutative(q, size);
        }
    }
    assert(size * d + size <= 0x1_0000_0000) by {
        vstd::arithmetic::mul::lemma_mul_inequality(d + 1, q, size);
        vstd::arithmetic::mul::lemma_mul_is_distributive_add_other_way(size, d, 1);
        vstd::arithmetic::mul::lemma_mul_is_commutative(d + 1, size);
        vstd::arithmetic::mul::lemma_mul_is_commutative(q, size);
    }
}

/// The block size `2^k` of an IPv6 prefix shorter than 128, and the facts the IPv6
/// sample needs.
proof fn lemma_v6_block(addr: u128, prefix: u8)
    requires
        prefix < 128,
    ensures
        2 <= v6_size(prefix),
        prefix <= 112 ==> v6_size(prefix) % 65536 == 0,
        0 <= v6_start(addr, prefix) <= addr,
        v6_start(addr, prefix) % (v6_size(prefix) as int) == 0,
        v6_start(addr, prefix) + v6_size(prefix) <= u128::MAX + 1,
{
    lemma2_to64();
    let k = (128 - prefix) as nat;
    let size = v6_size(prefix) as int;
    assert(size == pow2(k));
    vstd::arithmetic::power2::lemma_pow2_pos(k);
    vstd::arithmetic::power2::lemma_pow2_strictly_increases(0, k);
    if prefix <= 112 {
        vstd::arithmetic::power2::lemma_pow2_adds(16, (k - 16) as nat);
        vstd::arithmetic::div_mod::lemma_mod_multiples_basic(pow2((k - 16) as nat) as int, 65536);
        assert(size == pow2((k - 16) as nat) * 65536);
    }
    vstd::arithmetic::power2::lemma_pow2_adds(64, 64);
    assert(pow2(128) == u128::MAX + 1) by {
        assert(pow2(64) == 0x1_0000_0000_0000_0000);
    }
    vstd::arithmetic::power2::lemma_pow2_adds(k, (128 - k) as nat);
    let q = pow2((128 - k) as nat) as int;
    assert(size * q == u128::MAX + 1);
    vstd::arithmetic::div_mod::lemma_fundamental_div_mod(addr as int, size);
    let d = addr as int / size;
    assert(v6_start(addr, prefix) == size * d);
    vstd::arithmetic::div_mod::lemma_mod_multiples_basic(d, size);
    vstd::arithmetic::mul::lemma_mul_is_commutative(d, size);
    vstd::arithmetic::div_mod::lemma_mod_bound(addr as int, size);
    assert(d < q) by {
        if d >= q {
            vstd::arithmetic::mul::lemma_mul_inequality(q, d, size);
            vstd::arithmetic::mul::lemma_mul_is_commutative(q, size);
        }
    }
    assert(size * d + size <= u128::MAX + 1) by {
        vstd::arithmetic::mul::lemma_mul_inequality(d + 1, q, size);
        vstd::arithmetic::mul::lemma_mul_is_distributive_add_other_way(size, d, 1);
        vstd::arithmetic::mul::lemma_mul_is_commutative(d + 1, size);
        vstd::arithmetic::mul::lemma_mul_is_commutative(q, size);
    }
}

/// Appends the addresses chosen from an IPv4 network: all of them when `test_all`,
/// else a sample drawn from `rng`.
fn choose_ipv4<G: Rand + ?Sized>(
    addr: u32,
    prefix: u8,
    test_all: bool,
    out: &mut Vec<IpAddress>,
    rng: &mut G,
)
    requires
        prefix <= 32,
    ensures
        final(out)@.len() >= old(out)@.len(),
        final(out)@.take(old(out)@.len() as int) == old(out)@,
        G::obeys_rand_spec() ==> final(rng).drawn().len() >= old(rng).drawn().len(),
        G::obeys_rand_spec() ==> final(rng).drawn().take(old(rng).drawn().len() as int) == old(rng).drawn(),
        G::obeys_rand_spec() ==> network_outcome(
            CidrBlock::V4(addr, prefix),
            test_all,
            final(out)@.skip(old(out)@.len() as int),
            final(rng).drawn().skip(old(rng).drawn().len() as int),
        ),
        test_all ==> final(out)@ == old(out)@ + v4_all(addr, prefix),
        prefix == 32 ==> final(out)@ == old(out)@.push(IpAddress::V4(addr)),
{
    let ghost old_out = out@;
    let ghost d0 = rng.drawn();
    if prefix == 32 {
        out.push(IpAddress::V4(addr));
        assert(out@.skip(old_out.len() as int) =~= seq![IpAddress::V4(addr)]);
        assert(out@.take(old_out.len() as int) =~= old_out);
        assert(rng.drawn().skip(d0.len() as int) =~= Seq::<u64>::empty());
        assert(rng.drawn().take(d0.len() as int) =~= d0);
        return;
    }
    let k: u64 = (32 - prefix) as u64;
    proof {
        lemma_v4_block(addr, prefix);
        lemma2_to64();
        lemma_u64_shl_is_mul(1, k);
    }
    let size: u64 = 1u64 << k;
    let start: u64 = addr as u64 - addr as u64 % size;
    assert(start == v4_start(addr, prefix));
    assert(size == v4_size(prefix));
    if test_all {
        let mut i: u64 = 0;
        while i < size
            invariant
                i <= size,
                size == v4_size(prefix),
                start == v4_start(addr, prefix),
                start + size <= 0x1_0000_0000,
                out@ == old_out + v4_run(start as int, i as nat),
                rng.drawn() == d0,
            decreases size - i,
        {
            out.push(IpAddress::V4((start + i) as u32));
            assert(out@ =~= old_out + v4_run(start as int, (i + 1) as nat));
            i = i + 1;
        }
        assert(out@.take(old_out.len() as int) =~= old_out);
        assert(out@.skip(old_out.len() as int) =~= v4_all(addr, prefix));
        assert(rng.drawn().skip(d0.len() as int) =~= Seq::<u64>::empty());
        assert(rng.drawn().take(d0.len() as int) =~= d0);
    } else if prefix >= 24 {
        let off = rng.random_range_usize(0, (size - 1) as usize);
        out.push(IpAddress::V4((start + off as u64) as u32));
        assert(out@.take(old_out.len() as int) =~= old_out);
        assert(out@.skip(old_out.len() as int) =~= seq![IpAddress::V4((start + off as u64) as u32)]);
        proof {
            if G::obeys_rand_spec() {
                assert(rng.drawn().skip(d0.len() as int) =~= seq![rng.drawn().last()]);
                assert(rng.drawn().take(d0.len() as int) =~= d0);
            }
        }
    } else {
        let blocks: u64 = size / 256;
        assert(blocks * 256 == size);
        assert(blocks == v4_blocks(prefix));
        let mut j: u64 = 0;
        while j < blocks
            invariant
                j <= blocks,
                blocks == v4_blocks(prefix),
                blocks * 256 == size,
                size == v4_size(prefix),
                start == v4_start(addr, prefix),
                start + size <= 0x1_0000_0000,
                out@.len() == old_out.len() + j,
                out@.take(old_out.len() as int) == old_out,
                G::obeys_rand_spec() ==> rng.drawn().len() == d0.len() + j,
                G::obeys_rand_spec() ==> rng.drawn().take(d0.len() as int) == d0,
                G::obeys_rand_spec() ==> out@ == old_out + Seq::new(
                    j as nat,
                    |i: int|
                        IpAddress::V4(
                            (start + 256 * i + pick_in_range(0, 255, rng.drawn()[d0.len() + i] as int)) as u32,
                        ),
                ),
            decreases blocks - j,
        {
            let ghost dj = rng.drawn();
            let last = rng.random_range_u8(0, 255);
            assert(256 * j + 256 <= size) by (nonlinear_arith)
                requires
                    j < blocks,
                    blocks * 256 == size,
            ;
            let v: u32 = (start + 256 * j + last as u64) as u32;
            out.push(IpAddress::V4(v));
            proof {
                assert(out@.take(old_out.len() as int) =~= old_out);
                if G::obeys_rand_spec() {
                    assert(rng.drawn().take(dj.len() as int) =~= dj);
                    assert(rng.drawn().take(d0.len() as int) =~= d0) by {
                        assert(dj.take(d0.len() as int) =~= d0);
                    }
                    assert(out@ =~= old_out + Seq::new(
                        (j + 1) as nat,
                        |i: int|
                            IpAddress::V4(
                                (start + 256 * i + pick_in_range(0, 255, rng.drawn()[d0.len() + i] as int)) as u32,
                            ),
                    ));
                }
            }
            j = j + 1;
        }
        proof {
            if G::obeys_rand_spec() {
                assert(out@.skip(old_out.len() as int) =~= Seq::new(
                    v4_blocks(prefix),
                    |i: int|
                        IpAddress::V4(
                            (v4_start(addr, prefix) + 256 * i + pick_in_range(
                                0,
                                255,
                                rng.drawn().skip(d0.len() as int)[i] as int,
                            )) as u32,
                        ),
                ));
            }
        }
    }
}

/// Appends the address chosen from an IPv6 network: the address itself for a /128,
/// else one address of the network picked with two bytes drawn from `rng`.
fn choose_ipv6<G: Rand + ?Sized>(addr: u128, prefix: u8, out: &mut Vec<IpAddress>, rng: &mut G)
    requires
        prefix <= 128,
    ensures
        final(out)@.len() >= old(out)@.len(),
        final(out)@.take(old(out)@.len() as int) == old(out)@,
        G::obeys_rand_spec() ==> final(rng).drawn().len() >= old(rng).drawn().len(),
        G::obeys_rand_spec() ==> final(rng).drawn().take(old(rng).drawn().len() as int) == old(rng).drawn(),
        G::obeys_rand_spec() ==> v6_sampled(
            addr,
            prefix,
            final(out)@.skip(old(out)@.len() as int),
            final(rng).drawn().skip(old(rng).drawn().len() as int),
        ),
        prefix == 128 ==> final(out)@ == old(out)@.push(IpAddress::V6(addr)),
{
    let ghost old_out = out@;
    let ghost d0 = rng.drawn();
    if prefix == 128 {
        out.push(IpAddress::V6(addr));
        assert(rng.drawn().skip(d0.len() as int) =~= Seq::<u64>::empty());
        assert(rng.drawn().take(d0.len() as int) =~= d0);
    } else {
        let hi = rng.random_range_u8(0, 255);
        let ghost d1 = rng.drawn();
        let lo = rng.random_range_u8(0, 255);
        let s: u128 = hi as u128 * 256 + lo as u128;
        let v: u128 = if prefix <= 112 {
            addr - addr % 65536 + s
        } else {
            let k: u64 = (128 - prefix) as u64;
            proof {
                lemma2_to64();
                lemma_u64_shl_is_mul(1, k);
                vstd::arithmetic::power2::lemma_pow2_strictly_increases(k as nat, 16);
                vstd::arithmetic::power2::lemma_pow2_pos(k as nat);
            }
            let size: u128 = (1u64 << k) as u128;
            assert(size == v6_size(prefix));
            proof {
                lemma_v6_block(addr, prefix);
                vstd::arithmetic::div_mod::lemma_mod_bound(s as int, size as int);
            }
            addr - addr % size + s % size
        };
        out.push(IpAddress::V6(v));
        proof {
            if G::obeys_rand_spec() {
                assert(rng.drawn().take(d0.len() as int) =~= d0) by {
                    assert(d1.take(d0.len() as int) =~= d0);
                }
                assert(rng.drawn().skip(d0.len() as int) =~= seq![d1.last(), rng.drawn().last()]);
            }
        }
    }
    assert(out@.take(old_out.len() as int) =~= old_out);
    assert(out@.skip(old_out.len() as int) =~= seq![out@.last()]);
}

/// Parses one address or CIDR text and appends the addresses chosen from it; a text
/// that does not parse appends nothing and is handed to `on_warning`.
pub fn parse_and_append_cidr<G: Rand + ?Sized, W: WarningSink>(
    text: &str,
    test_all: bool,
    out: &mut Vec<IpAddress>,
    rng: &mut G,
    on_warning: Option<&mut W>,
)
    requires
        on_warning matches Some(cb) ==> cb.accepts(text),
    ensures
        final(out)@.len() >= old(out)@.len(),
        final(out)@.take(old(out)@.len() as int) == old(out)@,
        G::obeys_rand_spec() ==> final(rng).drawn().len() >= old(rng).drawn().len(),
        G::obeys_rand_spec() ==> final(rng).drawn().take(old(rng).drawn().len() as int) == old(rng).drawn(),
        G::obeys_rand_spec() ==> cidr_outcome(
            text@,
            test_all,
            final(out)@.skip(old(out)@.len() as int),
            final(rng).drawn().skip(old(rng).drawn().len() as int),
        ),
        on_warning matches Some(cb) ==> warned_exactly(
            *cb,
            *final(cb),
            if is_unparsable(text@) { seq![text@] } else { seq![] },
        ),
        !text@.contains('/') ==> match parsed_network(with_mask(text@)) {
            Some(CidrBlock::V4(a, _)) => final(out)@ == old(out)@.push(IpAddress::V4(a))
                && (G::obeys_rand_spec() ==> final(rng).drawn() == old(rng).drawn()),
            Some(CidrBlock::V6(a, _)) => !text@.contains('.') ==> (final(out)@ == old(out)@.push(
                IpAddress::V6(a),
            ) && (G::obeys_rand_spec() ==> final(rng).drawn() == old(rng).drawn())),
            None => true,
        },
        test_all ==> match parsed_network(with_mask(text@)) {
            Some(CidrBlock::V4(a, p)) => final(out)@ == old(out)@ + v4_all(a, p),
            _ => true,
        },
{
    let ghost old_out = out@;
    let ghost d0 = rng.drawn();
    let cs = chars_of(text);
    let mut masked = text.to_owned();
    if !contains_char(&cs, '/') {
        if contains_char(&cs, '.') {
            masked.append("/32");
        } else {
            masked.append("/128");
        }
    }
    assert(masked@ == with_mask(text@));
    proof {
        if !text@.contains('/') {
            let m = if text@.contains('.') { "/32"@ } else { "/128"@ };
            assert(masked@ == text@ + m);
            assert(masked@.subrange(masked@.len() - m.len(), masked@.len() as int) =~= m);
            assert(masked@.take(masked@.len() - m.len()) =~= text@);
        }
    }
    proof {
        assert forall|w: Seq<Seq<char>>| #[trigger] (w + Seq::<Seq<char>>::empty()) == w by {
            assert(w + Seq::<Seq<char>>::empty() =~= w);
        }
    }
    match parse_network(masked.as_str()) {
        None => {
            assert(is_unparsable(text@));
            match on_warning {
                Some(cb) => {
                    let ghost c0 = *cb;
                    cb.warn(text);
                    proof {
                        if W::obeys_warning_spec() {
                            assert(cb.warned() =~= c0.warned() + seq![text@]);
                        }
                    }
                },
                None => {},
            }
            assert(out@.skip(old_out.len() as int) =~= Seq::<IpAddress>::empty());
            assert(out@.take(old_out.len() as int) =~= old_out);
            assert(rng.drawn().skip(d0.len() as int) =~= Seq::<u64>::empty());
            assert(rng.drawn().take(d0.len() as int) =~= d0);
        },
        Some(CidrBlock::V4(addr, prefix)) => {
            choose_ipv4(addr, prefix, test_all, out, rng);
            proof {
                if !text@.contains('/') && G::obeys_rand_spec() {
                    assert(rng.drawn() =~= d0 + rng.drawn().skip(d0.len() as int));
                }
            }
        },
        Some(CidrBlock::V6(addr, prefix)) => {
            choose_ipv6(addr, prefix, out, rng);
            proof {
                if !text@.contains('/') && !text@.contains('.') && G::obeys_rand_spec() {
                    assert(rng.drawn() =~= d0 + rng.drawn().skip(d0.len() as int));
                }
            }
        },
    }
}

/// What one line of an address file contributes: nothing when it is blank after
/// trimming, else what the trimmed text contributes.
pub open spec fn line_outcome(line: Seq<char>, test_all: bool, new: Seq<IpAddress>, draws: Seq<u64>) -> bool {
    if trim(line).len() == 0 {
        new.len() == 0 && draws.len() == 0
    } else {
        cidr_outcome(trim(line), test_all, new, draws)
    }
}

/// Handles one line of an address file: trims it, skips it when blank, else parses
/// it as one address or CIDR text and appends the addresses chosen from it.
pub fn parse_ip_line<G: Rand + ?Sized, W: WarningSink>(
    line: &str,
    test_all: bool,
    out: &mut Vec<IpAddress>,
    rng: &mut G,
    on_warning: Option<&mut W>,
)
    requires
        on_warning matches Some(cb) ==> forall|t: &str| cb.accepts(t),
    ensures
        final(out)@.len() >= old(out)@.len(),
        final(out)@.take(old(out)@.len() as int) == old(out)@,
        G::obeys_rand_spec() ==> final(rng).drawn().len() >= old(rng).drawn().len(),
        G::obeys_rand_spec() ==> final(rng).drawn().take(old(rng).drawn().len() as int) == old(rng).drawn(),
        G::obeys_rand_spec() ==> line_outcome(
            line@,
            test_all,
            final(out)@.skip(old(out)@.len() as int),
            final(rng).drawn().skip(old(rng).drawn().len() as int),
        ),
        on_warning matches Some(cb) ==> warned_exactly(*cb, *final(cb), piece_warning(line@)),
{
    let ghost old_out = out@;
    let ghost d0 = rng.drawn();
    let cs = chars_of(line);
    let (lo, hi) = trim_bounds(&cs, 0, cs.len());
    assert(cs@.subrange(0, cs@.len() as int) =~= cs@);
    if lo == hi {
        assert(out@.skip(old_out.len() as int) =~= Seq::<IpAddress>::empty());
        assert(out@.take(old_out.len() as int) =~= old_out);
        assert(rng.drawn().skip(d0.len() as int) =~= Seq::<u64>::empty());
        assert(rng.drawn().take(d0.len() as int) =~= d0);
        return;
    }
    let trimmed = line.substring_char(lo, hi);
    parse_and_append_cidr(trimmed, test_all, out, rng, on_warning);
}

/// One step of reading an address list: reads the next line of `reader` into `buf`
/// (emptied first). At the end of input (nothing read) it returns `Ok(false)`, a read
/// error is handed back, and otherwise the line is parsed as `parse_ip_line` does and
/// `Ok(true)` is returned. What the reader puts into `buf` is up to the reader; for a
/// reader that keeps to the specification of `LineReader`, the read's outcome decides
/// the result as said.
pub fn parse_ip_ranges_step<R: LineReader + ?Sized, G: Rand + ?Sized, W: WarningSink>(
    reader: &mut R,
    buf: &mut String,
    test_all: bool,
    ips: &mut Vec<IpAddress>,
    rng: &mut G,
    on_warning: Option<&mut W>,
) -> (r: Result<bool, R::Error>)
    requires
        on_warning matches Some(cb) ==> forall|t: &str| cb.accepts(t),
    ensures
        R::obeys_reader_spec() ==> {
            &&& final(reader).reads().len() == old(reader).reads().len() + 1
            &&& final(reader).reads().drop_last() == old(reader).reads()
            &&& match final(reader).reads().last() {
                Err(e) => r == Err::<bool, R::Error>(e),
                Ok(n) => r == Ok::<bool, R::Error>(n != 0),
            }
        },
        final(ips)@.len() >= old(ips)@.len(),
        final(ips)@.take(old(ips)@.len() as int) == old(ips)@,
        G::obeys_rand_spec() ==> final(rng).drawn().len() >= old(rng).drawn().len(),
        G::obeys_rand_spec() ==> final(rng).drawn().take(old(rng).drawn().len() as int) == old(rng).drawn(),
        G::obeys_rand_spec() && (r matches Ok(true)) ==> line_outcome(
            final(buf)@,
            test_all,
            final(ips)@.skip(old(ips)@.len() as int),
            final(rng).drawn().skip(old(rng).drawn().len() as int),
        ),
        !(r matches Ok(true)) ==> final(ips)@ == old(ips)@,
        G::obeys_rand_spec() && !(r matches Ok(true)) ==> final(rng).drawn() == old(rng).drawn(),
        on_warning matches Some(cb) ==> warned_exactly(
            *cb,
            *final(cb),
            if r matches Ok(true) { piece_warning(final(buf)@) } else { seq![] },
        ),
{
    *buf = String::new();
    match reader.read_line(buf) {
        Err(e) => Err(e),
        Ok(n) => {
            if n == 0 {
                Ok(false)
            } else {
                parse_ip_line(buf.as_str(), test_all, ips, rng, on_warning);
                Ok(true)
            }
        },
    }
}

/// Separators of the pieces of an address text: line breaks and commas.
pub open spec fn is_separator(c: char) -> bool {
    c == '\n' || c == ','
}

/// The pieces of `rest`, the first of which begins with `cur`: `rest` split at
/// every separator.
pub open spec fn pieces_from(cur: Seq<char>, rest: Seq<char>) -> Seq<Seq<char>>
    decreases rest.len(),
{
    if rest.len() == 0 {
        seq![cur]
    } else if is_separator(rest[0]) {
        seq![cur] + pieces_from(Seq::empty(), rest.drop_first())
    } else {
        pieces_from(cur.push(rest[0]), rest.drop_first())
    }
}

/// The pieces of an address text: split at line breaks and commas.
pub open spec fn pieces(text: Seq<char>) -> Seq<Seq<char>> {
    pieces_from(Seq::empty(), text)
}

/// What a whole address text contributes, with the words drawn for it: the
/// concatenation of what each of its pieces contributes, in order, and of the words
/// drawn for each.
pub open spec fn text_outcome(text: Seq<char>, test_all: bool, ips: Seq<IpAddress>, draws: Seq<u64>) -> bool {
    exists|parts: Seq<Seq<IpAddress>>, dparts: Seq<Seq<u64>>|
        {
            &&& parts.len() == pieces(text).len()
            &&& dparts.len() == pieces(text).len()
            &&& ips == parts.flatten()
            &&& draws == dparts.flatten()
            &&& forall|i: int|
                0 <= i < parts.len() ==> line_outcome(
                    #[trigger] pieces(text)[i],
                    test_all,
                    parts[i],
                    dparts[i],
                )
        }
}

/// Appends what the piece `cs[a..b]` of `ip_text` contributes.
fn append_piece<G: Rand + ?Sized, W: WarningSink>(
    ip_text: &str,
    cs: &Vec<char>,
    a: usize,
    b: usize,
    test_all: bool,
    ips: &mut Vec<IpAddress>,
    rng: &mut G,
    on_warning: Option<&mut W>,
)
    requires
        cs@ == ip_text@,
        a <= b <= cs@.len(),
        on_warning matches Some(cb) ==> forall|t: &str| cb.accepts(t),
    ensures
        final(ips)@.len() >= old(ips)@.len(),
        final(ips)@.take(old(ips)@.len() as int) == old(ips)@,
        G::obeys_rand_spec() ==> final(rng).drawn().len() >= old(rng).drawn().len(),
        G::obeys_rand_spec() ==> final(rng).drawn().take(old(rng).drawn().len() as int) == old(rng).drawn(),
        G::obeys_rand_spec() ==> line_outcome(
            cs@.subrange(a as int, b as int),
            test_all,
            final(ips)@.skip(old(ips)@.len() as int),
            final(rng).drawn().skip(old(rng).drawn().len() as int),
        ),
        on_warning matches Some(cb) ==> warned_exactly(
            *cb,
            *final(cb),
            piece_warning(cs@.subrange(a as int, b as int)),
        ),
{
    let ghost before = ips@;
    let ghost d0 = rng.drawn();
    let (lo, hi) = trim_bounds(cs, a, b);
    if lo < hi {
        let trimmed = ip_text.substring_char(lo, hi);
        parse_and_append_cidr(trimmed, test_all, ips, rng, on_warning);
    } else {
        assert(ips@.skip(before.len() as int) =~= Seq::<IpAddress>::empty());
        assert(ips@.take(before.len() as int) =~= before);
        assert(rng.drawn().skip(d0.len() as int) =~= Seq::<u64>::empty());
        assert(rng.drawn().take(d0.len() as int) =~= d0);
    }
}

/// The warnings of the pieces `done` followed by those of one more piece are the
/// warnings of all of them.
proof fn lemma_warnings_step<W: WarningSink>(
    ow: Option<W>,
    wb: Option<W>,
    wa: Option<W>,
    done: Seq<Seq<char>>,
    piece: Seq<char>,
)
    requires
        match ow {
            Some(w0) => wb matches Some(w1) && warned_exactly(w0, w1, bad_texts(done)),
            None => wb is None,
        },
        match wb {
            Some(w1) => wa matches Some(w2) && warned_exactly(w1, w2, piece_warning(piece)),
            None => wa is None,
        },
    ensures
        match ow {
            Some(w0) => wa matches Some(w2) && warned_exactly(w0, w2, bad_texts(done.push(piece))),
            None => wa is None,
        },
{
    assert(done.push(piece).drop_last() =~= done);
    if let Some(w0) = ow {
        let w1 = wb->0;
        let w2 = wa->0;
        if W::obeys_warning_spec() {
            assert(w2.warned() =~= w0.warned() + bad_texts(done.push(piece)));
        }
    }
}

/// Parses address text as `parse_ip_ranges_from_str` does, handing the warnings to the
/// sink held in `on_warning`, which the caller keeps: it gets exactly the trimmed text
/// of each piece that is not blank and does not parse, in order.
pub fn parse_ip_text_with_sink<G: Rand + ?Sized, W: WarningSink>(
    ip_text: &str,
    test_all: bool,
    rng: &mut G,
    on_warning: &mut Option<W>,
) -> (ips: Vec<IpAddress>)
    requires
        *old(on_warning) matches Some(w) ==> forall|t: &str| w.accepts(t),
    ensures
        G::obeys_rand_spec() ==> final(rng).drawn().len() >= old(rng).drawn().len(),
        G::obeys_rand_spec() ==> final(rng).drawn().take(old(rng).drawn().len() as int) == old(rng).drawn(),
        G::obeys_rand_spec() ==> text_outcome(ip_text@, test_all, ips@, final(rng).drawn().skip(old(rng).drawn().len() as int)),
        match *old(on_warning) {
            Some(w0) => *final(on_warning) matches Some(w1) && warned_exactly(w0, w1, bad_texts(pieces(ip_text@))),
            None => *final(on_warning) is None,
        },
{
    let ghost d0 = rng.drawn();
    let ghost ow = *on_warning;
    let cs = chars_of(ip_text);
    let n = cs.len();
    let mut ips: Vec<IpAddress> = Vec::new();
    let ghost mut parts: Seq<Seq<IpAddress>> = Seq::empty();
    let ghost mut dparts: Seq<Seq<u64>> = Seq::empty();
    let ghost mut done: Seq<Seq<char>> = Seq::empty();
    let mut seg_start: usize = 0;
    let mut i: usize = 0;
    proof {
        assert(cs@.skip(0) =~= cs@);
        assert(cs@.subrange(0, 0) =~= Seq::<char>::empty());
        assert(parts.flatten() =~= Seq::<IpAddress>::empty());
        assert(dparts.flatten() =~= Seq::<u64>::empty());
        assert(rng.drawn().skip(d0.len() as int) =~= Seq::<u64>::empty());
        assert(rng.drawn().take(d0.len() as int) =~= d0);
    }
    while i < n
        invariant
            n == cs@.len(),
            cs@ == ip_text@,
            seg_start <= i <= n,
            done + pieces_from(cs@.subrange(seg_start as int, i as int), cs@.skip(i as int))
                == pieces(ip_text@),
            parts.len() == done.len(),
            dparts.len() == done.len(),
            ips@ == parts.flatten(),
            G::obeys_rand_spec() ==> rng.drawn().len() >= d0.len(),
            G::obeys_rand_spec() ==> rng.drawn().take(d0.len() as int) == d0,
            G::obeys_rand_spec() ==> rng.drawn().skip(d0.len() as int) == dparts.flatten(),
            G::obeys_rand_spec() ==> forall|j: int|
                0 <= j < parts.len() ==> line_outcome(#[trigger] done[j], test_all, parts[j], dparts[j]),
            match ow {
                Some(w0) => *on_warning matches Some(w1) && warned_exactly(w0, w1, bad_texts(done)),
                None => *on_warning is None,
            },
            ow matches Some(w0) ==> forall|t: &str| w0.accepts(t),
        decreases n - i,
    {
        proof {
            assert(cs@.skip(i as int).drop_first() =~= cs@.skip(i + 1));
        }
        if cs[i] == '\n' || cs[i] == ',' {
            let ghost piece = cs@.subrange(seg_start as int, i as int);
            let ghost before = ips@;
            let ghost dbefore = rng.drawn();
            let ghost wb = *on_warning;
            append_piece(ip_text, &cs, seg_start, i, test_all, &mut ips, rng, on_warning.as_mut());
            proof {
                lemma_warnings_step(ow, wb, *on_warning, done, piece);
                let new = ips@.skip(before.len() as int);
                let dnew = rng.drawn().skip(dbefore.len() as int);
                assert(ips@ =~= before + new);
                parts.lemma_flatten_push(new);
                dparts.lemma_flatten_push(dnew);
                parts = parts.push(new);
                dparts = dparts.push(dnew);
                done = done.push(piece);
                if G::obeys_rand_spec() {
                    assert(rng.drawn() =~= dbefore + dnew);
                    assert(rng.drawn().take(d0.len() as int) =~= d0) by {
                        assert(dbefore.take(d0.len() as int) =~= d0);
                    }
                    assert(rng.drawn().skip(d0.len() as int) =~= dbefore.skip(d0.len() as int) + dnew);
                }
                assert(cs@.subrange(i + 1, i + 1) =~= Seq::<char>::empty());
            }
            seg_start = i + 1;
        } else {
            proof {
                assert(cs@.subrange(seg_start as int, i as int).push(cs@[i as int]) =~= cs@.subrange(
                    seg_start as int,
                    i + 1,
                ));
            }
        }
        i = i + 1;
    }
    let ghost piece = cs@.subrange(seg_start as int, n as int);
    let ghost before = ips@;
    let ghost dbefore = rng.drawn();
    proof {
        assert(cs@.skip(n as int) =~= Seq::<char>::empty());
    }
    let ghost wb = *on_warning;
    append_piece(ip_text, &cs, seg_start, n, test_all, &mut ips, rng, on_warning.as_mut());
    proof {
        lemma_warnings_step(ow, wb, *on_warning, done, piece);
        let new = ips@.skip(before.len() as int);
        let dnew = rng.drawn().skip(dbefore.len() as int);
        assert(ips@ =~= before + new);
        parts.lemma_flatten_push(new);
        dparts.lemma_flatten_push(dnew);
        parts = parts.push(new);
        dparts = dparts.push(dnew);
        done = done.push(piece);
        if G::obeys_rand_spec() {
            assert(rng.drawn() =~= dbefore + dnew);
            assert(rng.drawn().take(d0.len() as int) =~= d0) by {
                assert(dbefore.take(d0.len() as int) =~= d0);
            }
            assert(rng.drawn().skip(d0.len() as int) =~= dbefore.skip(d0.len() as int) + dnew);
        }
        assert(done == pieces(ip_text@));

        assert(G::obeys_rand_spec() ==> forall|j: int|
            0 <= j < parts.len() ==> line_outcome(#[trigger] pieces(ip_text@)[j], test_all, parts[j], dparts[j]));
    }
    ips
}

/// Parses address text (lines and comma-separated pieces, each an address or CIDR
/// block) into the addresses to test; unparsable pieces go to `on_warning`.
pub fn parse_ip_ranges_from_str<G: Rand + ?Sized, W: WarningSink>(
    ip_text: &str,
    test_all: bool,
    rng: &mut G,
    on_warning: Option<W>,
) -> (ips: Vec<IpAddress>)
    requires
        on_warning matches Some(w) ==> forall|t: &str| w.accepts(t),
    ensures
        G::obeys_rand_spec() ==> final(rng).drawn().len() >= old(rng).drawn().len(),
        G::obeys_rand_spec() ==> final(rng).drawn().take(old(rng).drawn().len() as int) == old(rng).drawn(),
        G::obeys_rand_spec() ==> text_outcome(ip_text@, test_all, ips@, final(rng).drawn().skip(old(rng).drawn().len() as int)),
{
    let mut sink = on_warning;
    parse_ip_text_with_sink(ip_text, test_all, rng, &mut sink)
}

/// Testing every address lists the whole network, in order, each address once.
pub proof fn law_test_all_lists_network(addr: u32, prefix: u8)
    requires
        prefix <= 32,
    ensures
        v4_all(addr, prefix) == v4_run(v4_start(addr, prefix), v4_size(prefix)),
        v4_start(addr, prefix) + v4_size(prefix) <= 0x1_0000_0000,
{
    lemma2_to64();
    if prefix == 32 {
        assert(v4_size(prefix) == 1);
        assert(v4_start(addr, prefix) == addr);
        assert(v4_all(addr, prefix) =~= v4_run(v4_start(addr, prefix), v4_size(prefix)));
    } else {
        lemma_v4_block(addr, prefix);
    }
}

/// Sampling a network shorter than /24 picks one address in each of its /24 blocks,
/// ascending from the network's first block, and draws one word per block.
pub proof fn law_sampling_one_per_block(addr: u32, prefix: u8, new: Seq<IpAddress>, draws: Seq<u64>)
    requires
        prefix < 24,
        v4_sampled(addr, prefix, new, draws),
    ensures
        new.len() * 256 == v4_size(prefix),
        draws.len() == new.len(),
        forall|i: int|
            #![trigger new[i]]
            0 <= i < new.len() ==> (new[i] matches IpAddress::V4(x) && x / 256 == v4_start(addr, prefix) / 256 + i),
{
    lemma_v4_block(addr, prefix);
    let start = v4_start(addr, prefix);
    let size = v4_size(prefix) as int;
    assert(start % 256 == 0) by {
        let q = size / 256;
        assert(256 * q == size);
        vstd::arithmetic::div_mod::lemma_mod_mod(start, 256, q);
    }
    assert forall|i: int|
        #![trigger new[i]]
        0 <= i < new.len() implies (new[i] matches IpAddress::V4(x) && x / 256 == start / 256 + i) by {
        let o = pick_in_range(0, 255, draws[i] as int);
        assert(0 <= o < 256);
        assert(256 * i + 256 <= size) by (nonlinear_arith)
            requires
                0 <= i < new.len(),
                new.len() == size / 256,
                size % 256 == 0,
        ;
        assert((start + 256 * i + o) / 256 == start / 256 + i);
    }
}

/// Sampling a /24 to /31 network picks one address inside it with one draw.
pub proof fn law_sampling_stays_in_network(addr: u32, prefix: u8, new: Seq<IpAddress>, draws: Seq<u64>)
    requires
        24 <= prefix < 32,
        v4_sampled(addr, prefix, new, draws),
    ensures
        new.len() == 1,
        draws.len() == 1,
        new[0] matches IpAddress::V4(x) && v4_start(addr, prefix) <= x <= v4_end(addr, prefix),
{
    lemma_v4_block(addr, prefix);
}

/// An IPv6 network always yields exactly one address, whether or not every address
/// is to be tested: its own address for a /128, else an address inside the network.
pub proof fn law_ipv6_one_address(addr: u128, prefix: u8, test_all: bool, new: Seq<IpAddress>, draws: Seq<u64>)
    requires
        prefix <= 128,
        network_outcome(CidrBlock::V6(addr, prefix), test_all, new, draws),
    ensures
        new.len() == 1,
        prefix >= 128 ==> new[0] == IpAddress::V6(addr),
        prefix < 128 ==> (new[0] matches IpAddress::V6(x) && v6_start(addr, prefix) <= x
            && x < v6_start(addr, prefix) + v6_size(prefix)),
{
    if prefix < 128 {
        lemma_v6_block(addr, prefix);
        let start = v6_start(addr, prefix);
        let size = v6_size(prefix) as int;
        let s = pick_in_range(0, 255, draws[0] as int) * 256 + pick_in_range(0, 255, draws[1] as int);
        assert(0 <= s < 65536);
        if prefix <= 112 {
            let m = (addr as int) % size;
            vstd::arithmetic::div_mod::lemma_mod_bound(addr as int, size);
            let q = size / 65536;
            assert(65536 * q == size);
            vstd::arithmetic::div_mod::lemma_mod_mod(addr as int, 65536, q);
            assert((addr as int) % 65536 == m % 65536);
            vstd::arithmetic::div_mod::lemma_fundamental_div_mod(m, 65536);
            let c = m / 65536;
            assert(m - m % 65536 == 65536 * c);
            assert(65536 * c + 65536 <= size) by (nonlinear_arith)
                requires
                    65536 * c + m % 65536 == m,
                    0 <= m % 65536,
                    m < size,
                    65536 * q == size,
            {
                assert(c < q);
            }
        } else {
            vstd::arithmetic::div_mod::lemma_mod_bound(s, size);
        }
    }
}

/// The number of words drawn for a parsed network.
pub open spec fn network_draws(net: CidrBlock, test_all: bool) -> nat {
    match net {
        CidrBlock::V4(_, prefix) => if test_all || prefix >= 32 {
            0
        } else if prefix >= 24 {
            1
        } else {
            v4_blocks(prefix)
        },
        CidrBlock::V6(_, prefix) => if prefix >= 128 {
            0
        } else {
            2
        },
    }
}

/// The number of words drawn for one piece of an address text.
pub open spec fn line_draws(line: Seq<char>, test_all: bool) -> nat {
    if trim(line).len() == 0 {
        0
    } else {
        match parsed_network(with_mask(trim(line))) {
            None => 0,
            Some(net) => network_draws(net, test_all),
        }
    }
}

/// What a piece contributes is fixed by the piece and the words drawn, whose number
/// the piece fixes too.
proof fn lemma_line_outcome_unique(
    line: Seq<char>,
    test_all: bool,
    n1: Seq<IpAddress>,
    d1: Seq<u64>,
    n2: Seq<IpAddress>,
    d2: Seq<u64>,
)
    requires
        line_outcome(line, test_all, n1, d1),
        line_outcome(line, test_all, n2, d2),
    ensures
        d1.len() == line_draws(line, test_all),
        d2.len() == line_draws(line, test_all),
        d1 == d2 ==> n1 == n2,
{
}

/// Two splittings of one sequence into parts of the same lengths are the same.
proof fn lemma_flatten_same_lengths(a: Seq<Seq<u64>>, b: Seq<Seq<u64>>)
    requires
        a.len() == b.len(),
        forall|i: int| 0 <= i < a.len() ==> (#[trigger] a[i]).len() == b[i].len(),
        a.flatten() == b.flatten(),
    ensures
        a == b,
    decreases a.len(),
{
    if a.len() > 0 {
        let fa = a.first() + a.drop_first().flatten();
        let fb = b.first() + b.drop_first().flatten();
        assert(a.first().len() == b.first().len()) by {
            assert(a[0].len() == b[0].len());
        }
        assert(a.first() =~= fa.take(a.first().len() as int));
        assert(b.first() =~= fb.take(b.first().len() as int));
        assert(a.drop_first().flatten() =~= fa.skip(a.first().len() as int));
        assert(b.drop_first().flatten() =~= fb.skip(b.first().len() as int));
        assert forall|i: int| 0 <= i < a.drop_first().len() implies (#[trigger] a.drop_first()[i]).len()
            == b.drop_first()[i].len() by {
            assert(a[i + 1].len() == b[i + 1].len());
        }
        lemma_flatten_same_lengths(a.drop_first(), b.drop_first());
        assert(a =~= b) by {
            assert forall|i: int| 0 <= i < a.len() implies a[i] == b[i] by {
                if i > 0 {
                    assert(a[i] == a.drop_first()[i - 1]);
                    assert(b[i] == b.drop_first()[i - 1]);
                }
            }
        }
    }
}

/// The addresses taken from an address text are fixed by the text and the words
/// drawn: the warning callback, which takes no part in it, cannot change them.
pub proof fn law_addresses_fixed_by_draws(
    text: Seq<char>,
    test_all: bool,
    ips1: Seq<IpAddress>,
    ips2: Seq<IpAddress>,
    draws: Seq<u64>,
)
    requires
        text_outcome(text, test_all, ips1, draws),
        text_outcome(text, test_all, ips2, draws),
    ensures
        ips1 == ips2,
{
    let (p1, d1) = choose|parts: Seq<Seq<IpAddress>>, dparts: Seq<Seq<u64>>|
        {
            &&& parts.len() == pieces(text).len()
            &&& dparts.len() == pieces(text).len()
            &&& ips1 == parts.flatten()
            &&& draws == dparts.flatten()
            &&& forall|i: int|
                0 <= i < parts.len() ==> line_outcome(#[trigger] pieces(text)[i], test_all, parts[i], dparts[i])
        };
    let (p2, d2) = choose|parts: Seq<Seq<IpAddress>>, dparts: Seq<Seq<u64>>|
        {
            &&& parts.len() == pieces(text).len()
            &&& dparts.len() == pieces(text).len()
            &&& ips2 == parts.flatten()
            &&& draws == dparts.flatten()
            &&& forall|i: int|
                0 <= i < parts.len() ==> line_outcome(#[trigger] pieces(text)[i], test_all, parts[i], dparts[i])
        };
    assert forall|i: int| 0 <= i < d1.len() implies (#[trigger] d1[i]).len() == d2[i].len() by {
        lemma_line_outcome_unique(pieces(text)[i], test_all, p1[i], d1[i], p2[i], d2[i]);
    }
    lemma_flatten_same_lengths(d1, d2);
    assert(p1 =~= p2) by {
        assert forall|i: int| 0 <= i < p1.len() implies p1[i] == p2[i] by {
            lemma_line_outcome_unique(pieces(text)[i], test_all, p1[i], d1[i], p2[i], d2[i]);
        }
    }
}

/// Trimming ignores one more trailing white-space character.
proof fn lemma_trim_push_white(s: Seq<char>, w: char)
    requires
        is_white(w),
    ensures
        trim(s.push(w)) == trim(s),
{
    lemma_trim_start_push_white(s, w);
    if trim_start(s).len() > 0 {
        assert(trim_start(s).push(w).drop_last() =~= trim_start(s));
    }
}

/// Trimming the front of `s` followed by white space `w`.
proof fn lemma_trim_start_push_white(s: Seq<char>, w: char)
    requires
        is_white(w),
    ensures
        trim_start(s).len() > 0 ==> trim_start(s.push(w)) == trim_start(s).push(w),
        trim_start(s).len() == 0 ==> trim_start(s.push(w)).len() == 0,
    decreases s.len(),
{
    if s.len() == 0 {
        assert(s.push(w)[0] == w);
        assert(s.push(w).drop_first() =~= Seq::<char>::empty());
        assert(trim_start(Seq::<char>::empty()) == Seq::<char>::empty());
    } else {
        assert(s.push(w).drop_first() =~= s.drop_first().push(w));
        if is_white(s[0]) {
            lemma_trim_start_push_white(s.drop_first(), w);
        }
    }
}

/// Whether `l` is one line as a line reader hands it out: text without line breaks or
/// commas, ended by a line break.
pub open spec fn is_plain_line(l: Seq<char>) -> bool {
    &&& l.len() > 0
    &&& l.last() == '\n'
    &&& forall|j: int| 0 <= j < l.len() - 1 ==> !is_separator(#[trigger] l[j])
}

/// Splitting at separators passes over text that holds none.
proof fn lemma_pieces_skip_run(cur: Seq<char>, c: Seq<char>, rest: Seq<char>)
    requires
        forall|j: int| 0 <= j < c.len() ==> !is_separator(#[trigger] c[j]),
    ensures
        pieces_from(cur, c + rest) == pieces_from(cur + c, rest),
    decreases c.len(),
{
    if c.len() > 0 {
        assert((c + rest)[0] == c[0]);
        assert((c + rest).drop_first() =~= c.drop_first() + rest);
        assert forall|j: int| 0 <= j < c.drop_first().len() implies !is_separator(#[trigger] c.drop_first()[j]) by {
            assert(c.drop_first()[j] == c[j + 1]);
        }
        lemma_pieces_skip_run(cur.push(c[0]), c.drop_first(), rest);
        assert(cur.push(c[0]) + c.drop_first() =~= cur + c);
    } else {
        assert(c + rest =~= rest);
        assert(cur + c =~= cur);
    }
}

/// The pieces of lines joined together: the lines without their line breaks, then an
/// empty piece after the last break.
proof fn lemma_pieces_of_lines(ls: Seq<Seq<char>>)
    requires
        forall|i: int| 0 <= i < ls.len() ==> is_plain_line(#[trigger] ls[i]),
    ensures
        pieces(ls.flatten()) == ls.map_values(|l: Seq<char>| l.drop_last()).push(Seq::<char>::empty()),
    decreases ls.len(),
{
    if ls.len() == 0 {
        assert(ls.map_values(|l: Seq<char>| l.drop_last()).push(Seq::<char>::empty()) =~= seq![Seq::<char>::empty()]);
    } else {
        let l = ls[0];
        assert(is_plain_line(l));
        let c = l.drop_last();
        let rest = ls.drop_first().flatten();
        assert forall|i: int| 0 <= i < ls.drop_first().len() implies is_plain_line(#[trigger] ls.drop_first()[i]) by {
            assert(ls.drop_first()[i] == ls[i + 1]);
        }
        lemma_pieces_of_lines(ls.drop_first());
        assert(l =~= c.push('\n'));
        assert forall|j: int| 0 <= j < c.len() implies !is_separator(#[trigger] c[j]) by {
            assert(c[j] == l[j]);
        }
        assert(ls.flatten() == l + rest);
        assert(l + rest =~= c + (seq!['\n'] + rest));
        lemma_pieces_skip_run(Seq::empty(), c, seq!['\n'] + rest);
        assert((seq!['\n'] + rest).drop_first() =~= rest);
        assert(Seq::<char>::empty() + c =~= c);
        assert(pieces(ls.flatten()) == seq![c] + pieces(rest));
        assert(ls.map_values(|l: Seq<char>| l.drop_last()).push(Seq::<char>::empty()) =~= seq![c] + ls.drop_first().map_values(
            |l: Seq<char>| l.drop_last(),
        ).push(Seq::<char>::empty()));
    }
}

/// Warnings of pieces that trim alike are alike.
proof fn lemma_bad_texts_pointwise(a: Seq<Seq<char>>, b: Seq<Seq<char>>)
    requires
        a.len() == b.len(),
        forall|i: int| 0 <= i < a.len() ==> trim(#[trigger] a[i]) == trim(b[i]),
    ensures
        bad_texts(a) == bad_texts(b),
    decreases a.len(),
{
    if a.len() > 0 {
        assert forall|i: int| 0 <= i < a.drop_last().len() implies trim(#[trigger] a.drop_last()[i]) == trim(
            b.drop_last()[i],
        ) by {
            assert(a.drop_last()[i] == a[i]);
            assert(b.drop_last()[i] == b[i]);
        }
        lemma_bad_texts_pointwise(a.drop_last(), b.drop_last());
        assert(trim(a[a.len() - 1]) == trim(b[b.len() - 1]));
    }
}

/// Reading an address list line by line agrees with parsing the whole text: for lines
/// as a line reader hands them out (each ended by a line break, without commas), what
/// each line contributes, joined in order, is what the joined text contributes, and
/// the warnings given line by line are those the whole text gives.
pub proof fn law_lines_agree_with_text(
    ls: Seq<Seq<char>>,
    test_all: bool,
    parts: Seq<Seq<IpAddress>>,
    dparts: Seq<Seq<u64>>,
)
    requires
        forall|i: int| 0 <= i < ls.len() ==> is_plain_line(#[trigger] ls[i]),
        parts.len() == ls.len(),
        dparts.len() == ls.len(),
        forall|i: int| 0 <= i < ls.len() ==> line_outcome(#[trigger] ls[i], test_all, parts[i], dparts[i]),
    ensures
        text_outcome(ls.flatten(), test_all, parts.flatten(), dparts.flatten()),
        bad_texts(pieces(ls.flatten())) == bad_texts(ls),
{
    lemma_pieces_of_lines(ls);
    let ps = pieces(ls.flatten());
    let cs = ls.map_values(|l: Seq<char>| l.drop_last());
    assert forall|i: int| 0 <= i < ls.len() implies trim(#[trigger] cs[i]) == trim(ls[i]) by {
        assert(ls[i] =~= ls[i].drop_last().push('\n'));
        lemma_trim_push_white(ls[i].drop_last(), '\n');
    }
    let parts2 = parts.push(Seq::<IpAddress>::empty());
    let dparts2 = dparts.push(Seq::<u64>::empty());
    parts.lemma_flatten_push(Seq::<IpAddress>::empty());
    dparts.lemma_flatten_push(Seq::<u64>::empty());
    assert(parts.flatten() + Seq::<IpAddress>::empty() =~= parts.flatten());
    assert(dparts.flatten() + Seq::<u64>::empty() =~= dparts.flatten());
    assert forall|i: int| 0 <= i < parts2.len() implies line_outcome(
        #[trigger] ps[i],
        test_all,
        parts2[i],
        dparts2[i],
    ) by {
        if i < ls.len() {
            assert(ps[i] == cs[i]);
        } else {
            assert(ps[i] == Seq::<char>::empty());
            assert(trim_start(Seq::<char>::empty()) == Seq::<char>::empty());
        }
    }
    assert(text_outcome(ls.flatten(), test_all, parts.flatten(), dparts.flatten())) by {
        assert(parts2.flatten() == parts.flatten());
    }
    let ls2 = ls.push(Seq::<char>::empty());
    assert forall|i: int| 0 <= i < ps.len() implies trim(#[trigger] ps[i]) == trim(ls2[i]) by {
        if i < ls.len() {
            assert(ps[i] == cs[i]);
        }
    }
    lemma_bad_texts_pointwise(ps, ls2);
    assert(ls2.drop_last() =~= ls);
    assert(trim_start(Seq::<char>::empty()) == Seq::<char>::empty());
    assert(bad_texts(ls2) =~= bad_texts(ls));
}

} // verus!
