//! The scalar types of the wire format and their fixed-width images.

use crate::common::{digits_of, join, split, twos_image, twos_value, value_of, ByteEndian};
use crate::digits::{le_digits, le_value, lemma_pow256_widths, pow256};
use vstd::arithmetic::div_mod::lemma_small_mod;
use vstd::prelude::*;

verus! {

/// A scalar that travels as `SIZE` bytes: the base-256 digits of its image.
pub trait EndianValue<const SIZE: usize>: Sized {
    /// The unsigned number whose digits are written for `self`.
    spec fn image(self) -> nat;

    /// The value that the digits of `image` are read as.
    spec fn from_image(image: nat) -> Self;

    /// An image fits the width, and reading it gives the value back.
    proof fn lemma_image(self)
        ensures
            self.image() < pow256(SIZE as nat),
            Self::from_image(self.image()) == self,
    ;

    fn from_bytes_le(bytes: [u8; SIZE]) -> (value: Self)
        ensures
            value == Self::from_image(le_value(bytes@)),
    ;

    fn from_bytes_be(bytes: [u8; SIZE]) -> (value: Self)
        ensures
            value == Self::from_image(le_value(bytes@.reverse())),
    ;

    fn to_bytes_le(self) -> (bytes: [u8; SIZE])
        ensures
            bytes@ == le_digits(self.image(), SIZE as nat),
    ;

    fn to_bytes_be(self) -> (bytes: [u8; SIZE])
        ensures
            bytes@ == le_digits(self.image(), SIZE as nat).reverse(),
    ;

    fn from_bytes_of(endian: ByteEndian, bytes: [u8; SIZE]) -> (value: Self)
        ensures
            value == Self::from_image(value_of(bytes@, endian)),
    {
        match endian {
            ByteEndian::Big => Self::from_bytes_be(bytes),
            ByteEndian::Little => Self::from_bytes_le(bytes),
        }
    }

    fn to_bytes_of(self, endian: ByteEndian) -> (bytes: [u8; SIZE])
        ensures
            bytes@ == digits_of(self.image(), SIZE as nat, endian),
    {
        match endian {
            ByteEndian::Big => self.to_bytes_be(),
            ByteEndian::Little => self.to_bytes_le(),
        }
    }
}

impl EndianValue<1> for u8 {
    open spec fn image(self) -> nat {
        self as nat
    }

    open spec fn from_image(image: nat) -> Self {
        image as u8
    }

    proof fn lemma_image(self) {
        lemma_pow256_widths();
    }

    fn from_bytes_le(bytes: [u8; 1]) -> (value: Self) {
        proof {
            lemma_pow256_widths();
        }
        join(&bytes, ByteEndian::Little) as u8
    }

    fn from_bytes_be(bytes: [u8; 1]) -> (value: Self) {
        proof {
            lemma_pow256_widths();
        }
        join(&bytes, ByteEndian::Big) as u8
    }

    fn to_bytes_le(self) -> (bytes: [u8; 1]) {
        split::<1>(self as u128, ByteEndian::Little)
    }

    fn to_bytes_be(self) -> (bytes: [u8; 1]) {
        split::<1>(self as u128, ByteEndian::Big)
    }
}

impl EndianValue<2> for u16 {
    open spec fn image(self) -> nat {
        self as nat
    }

    open spec fn from_image(image: nat) -> Self {
        image as u16
    }

    proof fn lemma_image(self) {
        lemma_pow256_widths();
    }

    fn from_bytes_le(bytes: [u8; 2]) -> (value: Self) {
        proof {
            lemma_pow256_widths();
        }
        join(&bytes, ByteEndian::Little) as u16
    }

    fn from_bytes_be(bytes: [u8; 2]) -> (value: Self) {
        proof {
            lemma_pow256_widths();
        }
        join(&bytes, ByteEndian::Big) as u16
    }

    fn to_bytes_le(self) -> (bytes: [u8; 2]) {
        split::<2>(self as u128, ByteEndian::Little)
    }

    fn to_bytes_be(self) -> (bytes: [u8; 2]) {
        split::<2>(self as u128, ByteEndian::Big)
    }
}

impl EndianValue<4> for u32 {
    open spec fn image(self) -> nat {
        self as nat
    }

    open spec fn from_image(image: nat) -> Self {
        image as u32
    }

    proof fn lemma_image(self) {
        lemma_pow256_widths();
    }

    fn from_bytes_le(bytes: [u8; 4]) -> (value: Self) {
        proof {
            lemma_pow256_widths();
        }
        join(&bytes, ByteEndian::Little) as u32
    }

    fn from_bytes_be(bytes: [u8; 4]) -> (value: Self) {
        proof {
            lemma_pow256_widths();
        }
        join(&bytes, ByteEndian::Big) as u32
    }

    fn to_bytes_le(self) -> (bytes: [u8; 4]) {
        split::<4>(self as u128, ByteEndian::Little)
    }

    fn to_bytes_be(self) -> (bytes: [u8; 4]) {
        split::<4>(self as u128, ByteEndian::Big)
    }
}

impl EndianValue<8> for u64 {
    open spec fn image(self) -> nat {
        self as nat
    }

    open spec fn from_image(image: nat) -> Self {
        image as u64
    }

    proof fn lemma_image(self) {
        lemma_pow256_widths();
    }

    fn from_bytes_le(bytes: [u8; 8]) -> (value: Self) {
        proof {
            lemma_pow256_widths();
        }
        join(&bytes, ByteEndian::Little) as u64
    }

    fn from_bytes_be(bytes: [u8; 8]) -> (value: Self) {
        proof {
            lemma_pow256_widths();
        }
        join(&bytes, ByteEndian::Big) as u64
    }

    fn to_bytes_le(self) -> (bytes: [u8; 8]) {
        split::<8>(self as u128, ByteEndian::Little)
    }

    fn to_bytes_be(self) -> (bytes: [u8; 8]) {
        split::<8>(self as u128, ByteEndian::Big)
    }
}

impl EndianValue<16> for u128 {
    open spec fn image(self) -> nat {
        self as nat
    }

    open spec fn from_image(image: nat) -> Self {
        image as u128
    }

    proof fn lemma_image(self) {
        lemma_pow256_widths();
    }

    fn from_bytes_le(bytes: [u8; 16]) -> (value: Self) {
        proof {
            lemma_pow256_widths();
        }
        join(&bytes, ByteEndian::Little) as u128
    }

    fn from_bytes_be(bytes: [u8; 16]) -> (value: Self) {
        proof {
            lemma_pow256_widths();
        }
        join(&bytes, ByteEndian::Big) as u128
    }

    fn to_bytes_le(self) -> (bytes: [u8; 16]) {
        split::<16>(self as u128, ByteEndian::Little)
    }

    fn to_bytes_be(self) -> (bytes: [u8; 16]) {
        split::<16>(self as u128, ByteEndian::Big)
    }
}

/// What is left of a 64-bit image in a machine word.
pub open spec fn word_of(image: nat) -> nat {
    image % (usize::MAX as nat + 1)
}

impl EndianValue<8> for usize {
    open spec fn image(self) -> nat {
        self as nat
    }

    open spec fn from_image(image: nat) -> Self {
        word_of(image) as usize
    }

    proof fn lemma_image(self) {
        lemma_pow256_widths();
        lemma_small_mod(self as nat, usize::MAX as nat + 1);
    }

    fn from_bytes_le(bytes: [u8; 8]) -> (value: Self) {
        usize_of_image(join(&bytes, ByteEndian::Little))
    }

    fn from_bytes_be(bytes: [u8; 8]) -> (value: Self) {
        usize_of_image(join(&bytes, ByteEndian::Big))
    }

    fn to_bytes_le(self) -> (bytes: [u8; 8]) {
        split::<8>(self as u128, ByteEndian::Little)
    }

    fn to_bytes_be(self) -> (bytes: [u8; 8]) {
        split::<8>(self as u128, ByteEndian::Big)
    }
}

/// Narrows a 64-bit image to the machine word, keeping its low bits.
pub(crate) fn usize_of_image(image: u128) -> (value: usize)
    ensures
        value == word_of(image as nat),
{
    (image % (usize::MAX as u128 + 1)) as usize
}

impl EndianValue<8> for isize {
    open spec fn image(self) -> nat {
        twos_image(self as int, 8)
    }

    open spec fn from_image(image: nat) -> Self {
        if word_of(image) <= isize::MAX {
            word_of(image) as isize
        } else {
            (word_of(image) - (usize::MAX + 1)) as isize
        }
    }

    proof fn lemma_image(self) {
        lemma_pow256_widths();
        assert(usize::MAX == 0xffff_ffff || usize::MAX == 0xffff_ffff_ffff_ffff);
        assert(isize::MAX * 2 + 1 == usize::MAX);
        assert(isize::MIN + isize::MAX == -1);
        let image = self.image();
        if self >= 0 || usize::MAX == 0xffff_ffff_ffff_ffff {
            lemma_small_mod(image, usize::MAX as nat + 1);
        } else {
            assert(image == (self + 0x1_0000_0000) + 0x1_0000_0000 * 0xffff_ffff);
            assert(image % 0x1_0000_0000 == self + 0x1_0000_0000);
        }
    }

    fn from_bytes_le(bytes: [u8; 8]) -> (value: Self) {
        isize_of_image(join(&bytes, ByteEndian::Little))
    }

    fn from_bytes_be(bytes: [u8; 8]) -> (value: Self) {
        isize_of_image(join(&bytes, ByteEndian::Big))
    }

    fn to_bytes_le(self) -> (bytes: [u8; 8]) {
        split::<8>(image_of_isize(self), ByteEndian::Little)
    }

    fn to_bytes_be(self) -> (bytes: [u8; 8]) {
        split::<8>(image_of_isize(self), ByteEndian::Big)
    }
}

/// The two's complement image of `value` on 8 bytes, whatever the word size.
fn image_of_isize(value: isize) -> (image: u128)
    ensures
        image == twos_image(value as int, 8),
{
    proof {
        lemma_pow256_widths();
    }
    if value >= 0 {
        value as u128
    } else {
        (value as i128 + 0x1_0000_0000_0000_0000) as u128
    }
}

/// Narrows a 64-bit image to a signed machine word, keeping its low bits.
pub(crate) fn isize_of_image(image: u128) -> (value: isize)
    ensures
        value == <isize as EndianValue<8>>::from_image(image as nat),
{
    let word = image % (usize::MAX as u128 + 1);
    if word <= isize::MAX as u128 {
        word as isize
    } else {
        (word as i128 - (usize::MAX as i128 + 1)) as isize
    }
}

impl EndianValue<1> for i8 {
    open spec fn image(self) -> nat {
        twos_image(self as int, 1)
    }

    open spec fn from_image(image: nat) -> Self {
        twos_value(image, 1) as i8
    }

    proof fn lemma_image(self) {
        lemma_pow256_widths();
    }

    fn from_bytes_le(bytes: [u8; 1]) -> (value: Self) {
        i8_of_image(join(&bytes, ByteEndian::Little))
    }

    fn from_bytes_be(bytes: [u8; 1]) -> (value: Self) {
        i8_of_image(join(&bytes, ByteEndian::Big))
    }

    fn to_bytes_le(self) -> (bytes: [u8; 1]) {
        split::<1>(image_of_i8(self), ByteEndian::Little)
    }

    fn to_bytes_be(self) -> (bytes: [u8; 1]) {
        split::<1>(image_of_i8(self), ByteEndian::Big)
    }
}

/// The two's complement image of `value` on 1 byte.
fn image_of_i8(value: i8) -> (image: u128)
    ensures
        image == twos_image(value as int, 1),
{
    proof {
        lemma_pow256_widths();
    }
    if value >= 0 {
        value as u128
    } else {
        (value as i128 + 0x100) as u128
    }
}

/// The number whose two's complement image on 1 byte is `image`.
fn i8_of_image(image: u128) -> (value: i8)
    requires
        image < pow256(1),
    ensures
        value == twos_value(image as nat, 1) as i8,
{
    proof {
        lemma_pow256_widths();
    }
    if image < 0x80 {
        image as i8
    } else {
        (image as i128 - 0x100) as i8
    }
}

impl EndianValue<2> for i16 {
    open spec fn image(self) -> nat {
        twos_image(self as int, 2)
    }

    open spec fn from_image(image: nat) -> Self {
        twos_value(image, 2) as i16
    }

    proof fn lemma_image(self) {
        lemma_pow256_widths();
    }

    fn from_bytes_le(bytes: [u8; 2]) -> (value: Self) {
        i16_of_image(join(&bytes, ByteEndian::Little))
    }

    fn from_bytes_be(bytes: [u8; 2]) -> (value: Self) {
        i16_of_image(join(&bytes, ByteEndian::Big))
    }

    fn to_bytes_le(self) -> (bytes: [u8; 2]) {
        split::<2>(image_of_i16(self), ByteEndian::Little)
    }

    fn to_bytes_be(self) -> (bytes: [u8; 2]) {
        split::<2>(image_of_i16(self), ByteEndian::Big)
    }
}

/// The two's complement image of `value` on 2 bytes.
fn image_of_i16(value: i16) -> (image: u128)
    ensures
        image == twos_image(value as int, 2),
{
    proof {
        lemma_pow256_widths();
    }
    if value >= 0 {
        value as u128
    } else {
        (value as i128 + 0x1_0000) as u128
    }
}

/// The number whose two's complement image on 2 bytes is `image`.
fn i16_of_image(image: u128) -> (value: i16)
    requires
        image < pow256(2),
    ensures
        value == twos_value(image as nat, 2) as i16,
{
    proof {
        lemma_pow256_widths();
    }
    if image < 0x8000 {
        image as i16
    } else {
        (image as i128 - 0x1_0000) as i16
    }
}

impl EndianValue<4> for i32 {
    open spec fn image(self) -> nat {
        twos_image(self as int, 4)
    }

    open spec fn from_image(image: nat) -> Self {
        twos_value(image, 4) as i32
    }

    proof fn lemma_image(self) {
        lemma_pow256_widths();
    }

    fn from_bytes_le(bytes: [u8; 4]) -> (value: Self) {
        i32_of_image(join(&bytes, ByteEndian::Little))
    }

    fn from_bytes_be(bytes: [u8; 4]) -> (value: Self) {
        i32_of_image(join(&bytes, ByteEndian::Big))
    }

    fn to_bytes_le(self) -> (bytes: [u8; 4]) {
        split::<4>(image_of_i32(self), ByteEndian::Little)
    }

    fn to_bytes_be(self) -> (bytes: [u8; 4]) {
        split::<4>(image_of_i32(self), ByteEndian::Big)
    }
}

/// The two's complement image of `value` on 4 bytes.
fn image_of_i32(value: i32) -> (image: u128)
    ensures
        image == twos_image(value as int, 4),
{
    proof {
        lemma_pow256_widths();
    }
    if value >= 0 {
        value as u128
    } else {
        (value as i128 + 0x1_0000_0000) as u128
    }
}

/// The number whose two's complement image on 4 bytes is `image`.
fn i32_of_image(image: u128) -> (value: i32)
    requires
        image < pow256(4),
    ensures
        value == twos_value(image as nat, 4) as i32,
{
    proof {
        lemma_pow256_widths();
    }
    if image < 0x8000_0000 {
        image as i32
    } else {
        (image as i128 - 0x1_0000_0000) as i32
    }
}

impl EndianValue<8> for i64 {
    open spec fn image(self) -> nat {
        twos_image(self as int, 8)
    }

    open spec fn from_image(image: nat) -> Self {
        twos_value(image, 8) as i64
    }

    proof fn lemma_image(self) {
        lemma_pow256_widths();
    }

    fn from_bytes_le(bytes: [u8; 8]) -> (value: Self) {
        i64_of_image(join(&bytes, ByteEndian::Little))
    }

    fn from_bytes_be(bytes: [u8; 8]) -> (value: Self) {
        i64_of_image(join(&bytes, ByteEndian::Big))
    }

    fn to_bytes_le(self) -> (bytes: [u8; 8]) {
        split::<8>(image_of_i64(self), ByteEndian::Little)
    }

    fn to_bytes_be(self) -> (bytes: [u8; 8]) {
        split::<8>(image_of_i64(self), ByteEndian::Big)
    }
}

/// The two's complement image of `value` on 8 bytes.
pub(crate) fn image_of_i64(value: i64) -> (image: u128)
    ensures
        image == twos_image(value as int, 8),
{
    proof {
        lemma_pow256_widths();
    }
    if value >= 0 {
        value as u128
    } else {
        (value as i128 + 0x1_0000_0000_0000_0000) as u128
    }
}

/// The number whose two's complement image on 8 bytes is `image`.
fn i64_of_image(image: u128) -> (value: i64)
    requires
        image < pow256(8),
    ensures
        value == twos_value(image as nat, 8) as i64,
{
    proof {
        lemma_pow256_widths();
    }
    if image < 0x8000_0000_0000_0000 {
        image as i64
    } else {
        (image as i128 - 0x1_0000_0000_0000_0000) as i64
    }
}

impl EndianValue<16> for i128 {
    open spec fn image(self) -> nat {
        twos_image(self as int, 16)
    }

    open spec fn from_image(image: nat) -> Self {
        twos_value(image, 16) as i128
    }

    proof fn lemma_image(self) {
        lemma_pow256_widths();
    }

    fn from_bytes_le(bytes: [u8; 16]) -> (value: Self) {
        i128_of_image(join(&bytes, ByteEndian::Little))
    }

    fn from_bytes_be(bytes: [u8; 16]) -> (value: Self) {
        i128_of_image(join(&bytes, ByteEndian::Big))
    }

    fn to_bytes_le(self) -> (bytes: [u8; 16]) {
        split::<16>(image_of_i128(self), ByteEndian::Little)
    }

    fn to_bytes_be(self) -> (bytes: [u8; 16]) {
        split::<16>(image_of_i128(self), ByteEndian::Big)
    }
}

/// The two's complement image of `value` on 16 bytes.
fn image_of_i128(value: i128) -> (image: u128)
    ensures
        image == twos_image(value as int, 16),
{
    proof {
        lemma_pow256_widths();
    }
    if value >= 0 {
        value as u128
    } else {
        // value + 2^128, reached in two steps that both fit
        ((value + 1) + i128::MAX) as u128 + 0x8000_0000_0000_0000_0000_0000_0000_0000
    }
}

/// The number whose two's complement image on 16 bytes is `image`.
fn i128_of_image(image: u128) -> (value: i128)
    ensures
        value == twos_value(image as nat, 16) as i128,
{
    proof {
        lemma_pow256_widths();
    }
    if image < 0x8000_0000_0000_0000_0000_0000_0000_0000 {
        image as i128
    } else {
        ((image - 0x8000_0000_0000_0000_0000_0000_0000_0000) as i128 - i128::MAX) - 1
    }
}

} // verus!
