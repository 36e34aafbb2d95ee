//! Byte order, and the scalars that know their own wire image.

use crate::digits::{
    le_digits, le_value, lemma_le_value_bound, lemma_pow256_monotonic, lemma_pow256_positive,
    lemma_pow256_widths, pow256,
};
pub use crate::scalar::EndianValue;
use std::hash::Hash;
use vstd::arithmetic::div_mod::lemma_div_denominator;
use vstd::prelude::*;

verus! {

/// The order in which the bytes of a multi-byte scalar travel.
#[derive(Copy, Clone, Debug, PartialEq, Eq, Structural)]
pub enum ByteEndian {
    /// Most significant byte first.
    Big,
    /// Least significant byte first.
    Little,
}

/// The two bytes of the number one as this machine holds it in memory
/// (`u16::to_ne_bytes`): the low byte comes first or last, nothing else.
#[verifier::external_body]
fn native_probe() -> (bytes: [u8; 2])
    ensures
        bytes@ == le_digits(1, 2) || bytes@ == le_digits(1, 2).reverse(),
{
    1u16.to_ne_bytes()
}

impl ByteEndian {
    /// The other byte order.
    pub open spec fn flipped(self) -> ByteEndian {
        match self {
            ByteEndian::Big => ByteEndian::Little,
            ByteEndian::Little => ByteEndian::Big,
        }
    }

    /// Whether this byte order is the native one on a machine whose own
    /// byte order is `host`.
    pub fn is_native_on(&self, host: ByteEndian) -> (native: bool)
        ensures
            native == (*self == host),
    {
        match (self, host) {
            (ByteEndian::Big, ByteEndian::Big) => true,
            (ByteEndian::Little, ByteEndian::Little) => true,
            _ => false,
        }
    }

    /// The byte order of the machine that runs this code.
    pub fn native() -> ByteEndian {
        // Which of the two orders the machine has is not known before the
        // program runs; what is read from the probe is proved for every
        // probe in `order_in`.
        let probe = native_probe();
        let order = ByteEndian::order_in(probe);
        order
    }

    /// Whether scalars in this byte order lie on the wire as they lie in
    /// this machine's memory.
    pub fn is_native(&self) -> bool {
        self.is_native_on(ByteEndian::native())
    }

    /// The byte order in which `probe` holds the number one: little where
    /// the low byte comes first, big otherwise. Where `probe` is the number
    /// one in either order, it is the number one in the order returned.
    pub fn order_in(probe: [u8; 2]) -> (order: ByteEndian)
        ensures
            order == (if probe@[0] == 1 {
                ByteEndian::Little
            } else {
                ByteEndian::Big
            }),
            probe@ == le_digits(1, 2) || probe@ == le_digits(1, 2).reverse() ==> probe@
                == digits_of(1, 2, order),
    {
        proof {
            let digits = le_digits(1, 2);
            assert(pow256(0) == 1);
            assert(pow256(1) == 256 * pow256(0));
            assert(digits[0] == ((1nat / pow256(0)) % 256) as u8);
            assert(digits[1] == ((1nat / pow256(1)) % 256) as u8);
            assert(digits.reverse()[0] == digits[1]);
        }
        if probe[0] == 1 {
            ByteEndian::Little
        } else {
            ByteEndian::Big
        }
    }
}

/// The `width` low digits of `x` in the order that `endian` asks for.
pub open spec fn digits_of(x: nat, width: nat, endian: ByteEndian) -> Seq<u8> {
    match endian {
        ByteEndian::Little => le_digits(x, width),
        ByteEndian::Big => le_digits(x, width).reverse(),
    }
}

/// The number that `digits` denote when read in the order `endian`.
pub open spec fn value_of(digits: Seq<u8>, endian: ByteEndian) -> nat {
    match endian {
        ByteEndian::Little => le_value(digits),
        ByteEndian::Big => le_value(digits.reverse()),
    }
}

/// The image of a signed number in two's complement on `width` bytes.
pub open spec fn twos_image(x: int, width: nat) -> nat {
    if x >= 0 {
        x as nat
    } else {
        (x + pow256(width)) as nat
    }
}

/// The signed number that an image on `width` bytes stands for.
pub open spec fn twos_value(image: nat, width: nat) -> int {
    if 2 * image < pow256(width) {
        image as int
    } else {
        image - pow256(width)
    }
}

/// Where the digit of weight `256 ^ k` stands among `width` bytes.
pub open spec fn slot(k: int, width: int, endian: ByteEndian) -> int {
    match endian {
        ByteEndian::Little => k,
        ByteEndian::Big => width - 1 - k,
    }
}

/// Writes `x` as `N` digits in the order `endian`.
pub fn split<const N: usize>(x: u128, endian: ByteEndian) -> (bytes: [u8; N])
    ensures
        bytes@ == digits_of(x as nat, N as nat, endian),
{
    let mut bytes = [0u8; N];
    let mut rest = x;
    let mut k: usize = 0;
    proof {
        assert(pow256(0) == 1);
    }
    while k < N
        invariant
            k <= N,
            bytes@.len() == N,
            rest == x as nat / pow256(k as nat),
            forall|j: int|
                #![trigger slot(j, N as int, endian)]
                0 <= j < k ==> bytes@[slot(j, N as int, endian)] == le_digits(x as nat, N as nat)[j],
        decreases N - k,
    {
        let at = match endian {
            ByteEndian::Little => k,
            ByteEndian::Big => N - 1 - k,
        };
        let ghost before = bytes@;
        bytes[at] = (rest % 256) as u8;
        proof {
            lemma_pow256_positive(k as nat);
            lemma_div_denominator(x as int, pow256(k as nat) as int, 256);
            assert(pow256((k + 1) as nat) == 256 * pow256(k as nat));
            assert(pow256(k as nat) * 256 == 256 * pow256(k as nat)) by (nonlinear_arith);
            assert forall|j: int|
                #![trigger slot(j, N as int, endian)]
                0 <= j < k + 1 implies bytes@[slot(j, N as int, endian)] == le_digits(
                x as nat,
                N as nat,
            )[j] by {
                if j < k {
                    assert(before[slot(j, N as int, endian)] == le_digits(x as nat, N as nat)[j]);
                }
            }
        }
        rest = rest / 256;
        k += 1;
    }
    proof {
        let goal = digits_of(x as nat, N as nat, endian);
        assert forall|i: int| 0 <= i < N implies bytes@[i] == goal[i] by {
            let j = slot(i, N as int, endian);
            assert(slot(j, N as int, endian) == i);
        }
        assert(bytes@ =~= goal);
    }
    bytes
}

/// Reads the `N` digits of `bytes` in the order `endian`. Sixteen digits
/// are the most that the result can hold.
pub fn join<const N: usize>(bytes: &[u8; N], endian: ByteEndian) -> (x: u128)
    requires
        N <= 16,
    ensures
        x == value_of(bytes@, endian),
        x < pow256(N as nat),
{
    let ghost digits = match endian {
        ByteEndian::Little => bytes@,
        ByteEndian::Big => bytes@.reverse(),
    };
    let mut x: u128 = 0;
    let mut k: usize = N;
    proof {
        assert(digits.skip(N as int) =~= Seq::<u8>::empty());
    }
    while k > 0
        invariant
            k <= N <= 16,
            bytes@.len() == N,
            digits.len() == N,
            forall|j: int|
                #![trigger slot(j, N as int, endian)]
                0 <= j < N ==> digits[j] == bytes@[slot(j, N as int, endian)],
            x == le_value(digits.skip(k as int)),
        decreases k,
    {
        k -= 1;
        let at = match endian {
            ByteEndian::Little => k,
            ByteEndian::Big => N - 1 - k,
        };
        proof {
            let tail = digits.skip(k as int);
            assert(tail.drop_first() =~= digits.skip(k + 1));
            assert(at == slot(k as int, N as int, endian));
            assert(tail[0] == bytes@[at as int]);
            assert(le_value(tail) == tail[0] as nat + 256 * le_value(tail.drop_first()));
            lemma_le_value_bound(digits.skip(k + 1));
            lemma_pow256_monotonic((N - k - 1) as nat, 15);
            lemma_pow256_widths();
        }
        x = x * 256 + bytes[at] as u128;
    }
    proof {
        assert(digits.skip(0) =~= digits);
        lemma_le_value_bound(digits);
    }
    x
}

/// One key of a map with its value, the unit in which a map travels.
pub struct MapEntry<K: Eq + Hash, V>(pub K, pub V);

} // verus!
