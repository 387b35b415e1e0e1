//! The id by which a client introduces itself to a server, derived from a
//! hash of the machine's hardware: the decimal values of the hash's bytes
//! are written one after another until at least 18 digits stand, and the
//! digits are read as one number.

use vstd::prelude::*;

verus! {

/// A part of the machine that goes into its hardware hash.
#[derive(Clone, Copy, PartialEq, Eq, Structural, Debug)]
pub enum HardwareComponent {
    CpuId,
    OsName,
    SystemId,
    DriveSerial,
}

/// The key that the hardware hash is made with.
pub const CLIENT_ID_KEY: &'static str = "really great key";

/// Digits are written while fewer than this many stand.
pub const CLIENT_ID_DIGITS: usize = 18;

/// The number of decimal digits of a byte.
pub open spec fn decimal_len(b: u8) -> nat {
    if b < 10 {
        1
    } else if b < 100 {
        2
    } else {
        3
    }
}

/// Ten to the power `n`.
pub open spec fn pow10(n: nat) -> nat
    decreases n,
{
    if n == 0 {
        1
    } else {
        10 * pow10((n - 1) as nat)
    }
}

/// Writing the decimal values of `bytes` after `count` digits that read as
/// `value`, while fewer than 18 digits stand: the number of digits and the
/// number that they read as.
pub open spec fn id_digits(bytes: Seq<u8>, count: nat, value: nat) -> (nat, nat)
    decreases bytes.len(),
{
    if bytes.len() == 0 || count >= CLIENT_ID_DIGITS {
        (count, value)
    } else {
        id_digits(
            bytes.drop_first(),
            count + decimal_len(bytes[0]),
            (value * pow10(decimal_len(bytes[0])) + bytes[0]) as nat,
        )
    }
}

/// The client id that a hardware hash gives: none where no digit was
/// written or the digits read as a number beyond `u64`.
pub open spec fn client_id_of(bytes: Seq<u8>) -> Option<u64> {
    let (count, value) = id_digits(bytes, 0, 0);
    if count == 0 || value > u64::MAX {
        None
    } else {
        Some(value as u64)
    }
}

/// Whether `b` is the ASCII code of a lowercase hexadecimal digit.
pub open spec fn is_lower_hex_digit(b: u8) -> bool {
    (48 <= b <= 57) || (97 <= b <= 102)
}

/// Whether `s` is what an MD5 hardware hash looks like: 32 lowercase
/// hexadecimal digits.
pub open spec fn is_md5_hex(s: Seq<u8>) -> bool {
    s.len() == 32 && forall|i: int| 0 <= i < 32 ==> is_lower_hex_digit(#[trigger] s[i])
}

proof fn lemma_pow10_small()
    ensures
        pow10(1) == 10,
        pow10(2) == 100,
        pow10(3) == 1000,
        pow10(17) == 100000000000000000,
        pow10(20) == 100000000000000000000,
{
    reveal_with_fuel(pow10, 21);
}

proof fn lemma_pow10_mono(a: nat, b: nat)
    requires
        a <= b,
    ensures
        pow10(a) <= pow10(b),
    decreases b,
{
    if a < b {
        lemma_pow10_mono(a, (b - 1) as nat);
    }
}

proof fn lemma_pow10_add(a: nat, b: nat)
    ensures
        pow10(a + b) == pow10(a) * pow10(b),
    decreases b,
{
    if b > 0 {
        lemma_pow10_add(a, (b - 1) as nat);
        let x = pow10(a);
        let y = pow10((b - 1) as nat);
        assert(pow10(a + b) == 10 * pow10((a + (b - 1)) as nat));
        assert(pow10(b) == 10 * y);
        assert(10 * (x * y) == x * (10 * y)) by (nonlinear_arith);
        assert(pow10(a + b) == 10 * (x * y));
    } else {
        assert(pow10(0) == 1);
        assert(a + b == a);
        assert(pow10(a) * 1 == pow10(a));
    }
}

/// Appending the digits of a number below `10^k` to a number below
/// `10^c` gives a number below `10^(c + k)`.
proof fn lemma_append_digits_bound(v: nat, c: nat, b: nat, k: nat)
    requires
        v < pow10(c),
        b < pow10(k),
    ensures
        v * pow10(k) + b < pow10(c + k),
{
    lemma_pow10_add(c, k);
    let p = pow10(k);
    let q = pow10(c);
    assert(v * p + b < q * p) by (nonlinear_arith)
        requires
            v < q,
            b < p,
    ;
}

/// The client id that the hardware hash `bytes` gives; see [client_id_of].
pub fn client_id_from_hardware_id(bytes: &[u8]) -> (r: Option<u64>)
    ensures
        r == client_id_of(bytes@),
{
    let mut count: usize = 0;
    let mut value: u128 = 0;
    let mut i: usize = 0;
    proof {
        lemma_pow10_small();
        assert(bytes@.subrange(0, bytes@.len() as int) =~= bytes@);
    }
    while i < bytes.len() && count < CLIENT_ID_DIGITS
        invariant
            i <= bytes@.len(),
            count <= 20,
            count == 0 ==> i == 0,
            value < pow10(count as nat),
            pow10(20) == 100000000000000000000,
            pow10(17) == 100000000000000000,
            pow10(1) == 10 && pow10(2) == 100 && pow10(3) == 1000,
            id_digits(bytes@.subrange(i as int, bytes@.len() as int), count as nat, value as nat)
                == id_digits(bytes@, 0, 0),
        decreases bytes@.len() - i,
    {
        let b = bytes[i];
        let (scale, width): (u128, usize) = if b < 10 {
            (10, 1)
        } else if b < 100 {
            (100, 2)
        } else {
            (1000, 3)
        };
        proof {
            let rest = bytes@.subrange(i as int, bytes@.len() as int);
            assert(rest[0] == b);
            assert(rest.drop_first() =~= bytes@.subrange(i + 1, bytes@.len() as int));
            assert(scale == pow10(decimal_len(b)));
            assert(width == decimal_len(b));
            lemma_pow10_mono(count as nat, 17);
            lemma_append_digits_bound(value as nat, count as nat, b as nat, width as nat);
            lemma_pow10_mono((count + width) as nat, 20);
            assert(value * scale <= 100000000000000000 * 1000) by (nonlinear_arith)
                requires
                    value < 100000000000000000,
                    scale <= 1000,
            ;
        }
        value = value * scale + b as u128;
        count = count + width;
        i = i + 1;
    }
    proof {
        let rest = bytes@.subrange(i as int, bytes@.len() as int);
        assert(id_digits(rest, count as nat, value as nat) == (count as nat, value as nat));
        if count == 0 {
            assert(bytes@.len() == 0);
        }
    }
    if count == 0 || value > u64::MAX as u128 {
        None
    } else {
        Some(value as u64)
    }
}

/// The parts of the machine that its client id is made from, in order.
pub open spec fn client_id_components() -> Seq<HardwareComponent> {
    seq![
        HardwareComponent::CpuId,
        HardwareComponent::OsName,
        HardwareComponent::SystemId,
        HardwareComponent::DriveSerial,
    ]
}

/// Hashes the machine's hardware with HMAC-MD5 under `key`, through
/// `machineid_rs::IdBuilder::build`: the components are added in order and
/// the hash comes back as the ASCII bytes of its lowercase hex digits.
/// Nothing is said of which hash a machine gives, only of its form;
/// `None` where reading a component fails. It is made for the client id
/// alone: the components are those of [client_id_components] and the key
/// is [CLIENT_ID_KEY].
#[verifier::external_body]
fn md5_machine_id(components: &[HardwareComponent], key: &str) -> (r: Option<Vec<u8>>)
    requires
        components@ == client_id_components(),
        key@ == CLIENT_ID_KEY@,
    ensures
        r matches Some(b) ==> is_md5_hex(b@),
{
    let mut builder = machineid_rs::IdBuilder::new(machineid_rs::Encryption::MD5);
    for c in components {
        builder.add_component(match c {
            HardwareComponent::CpuId => machineid_rs::HWIDComponent::CPUID,
            HardwareComponent::OsName => machineid_rs::HWIDComponent::OSName,
            HardwareComponent::SystemId => machineid_rs::HWIDComponent::SystemID,
            HardwareComponent::DriveSerial => machineid_rs::HWIDComponent::DriveSerial,
        });
    }
    builder.build(key).ok().map(|s| s.into_bytes())
}

/// The id of this machine's client: the hash of its CPU id, OS name,
/// system id and drive serial under [CLIENT_ID_KEY], turned into a number
/// by [client_id_from_hardware_id]. `None` where the hash cannot be made
/// or its digits overflow.
pub fn generate_client_id() -> (r: Option<u64>)
    ensures
        r matches Some(id) ==> exists|b: Seq<u8>| is_md5_hex(b) && client_id_of(b) == Some(id),
{
    let components = [
        HardwareComponent::CpuId,
        HardwareComponent::OsName,
        HardwareComponent::SystemId,
        HardwareComponent::DriveSerial,
    ];
    assert(components@ =~= client_id_components());
    match md5_machine_id(&components, CLIENT_ID_KEY) {
        Some(bytes) => client_id_from_hardware_id(bytes.as_slice()),
        None => None,
    }
}

/// Bytes of two or more decimal digits each stop adding digits once `k`
/// of them follow a count of at least `18 - 2k` digits: what comes after
/// them does not matter.
proof fn lemma_id_digits_prefix(bytes: Seq<u8>, count: nat, value: nat, k: nat)
    requires
        k <= bytes.len(),
        count + 2 * k >= CLIENT_ID_DIGITS,
        forall|i: int| 0 <= i < bytes.len() ==> #[trigger] bytes[i] >= 10,
    ensures
        id_digits(bytes, count, value) == id_digits(bytes.take(k as int), count, value),
    decreases k,
{
    if count < CLIENT_ID_DIGITS {
        let t = bytes.take(k as int);
        assert(t[0] == bytes[0]);
        assert(t.drop_first() =~= bytes.drop_first().take(k - 1));
        let b = bytes[0];
        let next = (value * pow10(decimal_len(b)) + b) as nat;
        assert forall|i: int| 0 <= i < bytes.drop_first().len() implies #[trigger] bytes.drop_first()[i]
            >= 10 by {
            assert(bytes.drop_first()[i] == bytes[i + 1]);
        }
        lemma_id_digits_prefix(bytes.drop_first(), count + decimal_len(b), next, (k - 1) as nat);
    } else {
        assert(id_digits(bytes.take(k as int), count, value) == (count, value));
    }
}

/// The client id depends on the first nine bytes of the hash alone: two
/// MD5 hashes that agree on them give the same id.
pub proof fn lemma_client_id_from_first_bytes(a: Seq<u8>, b: Seq<u8>)
    requires
        is_md5_hex(a),
        is_md5_hex(b),
        a.take(9) == b.take(9),
    ensures
        client_id_of(a) == client_id_of(b),
{
    assert forall|i: int| 0 <= i < a.len() implies #[trigger] a[i] >= 10 by {
        assert(is_lower_hex_digit(a[i]));
    }
    assert forall|i: int| 0 <= i < b.len() implies #[trigger] b[i] >= 10 by {
        assert(is_lower_hex_digit(b[i]));
    }
    lemma_id_digits_prefix(a, 0, 0, 9);
    lemma_id_digits_prefix(b, 0, 0, 9);
}

} // verus!
