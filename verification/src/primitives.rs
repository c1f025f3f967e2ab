//! Primitive codecs: fixed-width, little-endian integers.
//!
//! Every integer of the wire format is little-endian, whatever the machine.
//! The model is arithmetic: a run of bytes stands for the number
//! `b0 + 256 * b1 + 256^2 * b2 + ...`, and a signed integer is stored as its
//! two's complement in the width of its type.

use vstd::prelude::*;
use vstd::string::StringExecFns;

use crate::bytes::{lemma_splice_trivial, splice};
use crate::text::{decimal_value, parse_decimal};

verus! {

/// A fixed-width integer type: a primitive layout, the width of a
/// discriminant, or the suffix of an integer literal.
///
/// `usize` and `isize` are as wide as the machine has them: four bytes or
/// eight.
#[derive(Clone, Copy, Debug, PartialEq, Eq, Structural)]
pub enum IntType {
    U8,
    U16,
    U32,
    U64,
    U128,
    I8,
    I16,
    I32,
    I64,
    I128,
    /// as wide as an address of the machine
    Usize,
    /// as wide as an address of the machine
    Isize,
}

/// An integer value of any of the supported widths.
///
/// Unsigned types decode to `Unsigned`, signed types to `Signed`.
#[derive(Clone, Copy, Debug, PartialEq, Eq, Structural)]
pub enum Integer {
    Unsigned(u128),
    Signed(i128),
}

/// `256` to the power `n`: the number of byte strings of length `n`.
pub open spec fn pow256(n: nat) -> nat
    decreases n,
{
    if n == 0 {
        1
    } else {
        256 * pow256((n - 1) as nat)
    }
}

/// The number that a little-endian byte string stands for.
pub open spec fn le_value(bytes: Seq<u8>) -> nat
    decreases bytes.len(),
{
    if bytes.len() == 0 {
        0
    } else {
        bytes[0] as nat + 256 * le_value(bytes.drop_first())
    }
}

/// The `width` low bytes of `value`, least significant first.
pub open spec fn le_bytes(value: nat, width: nat) -> Seq<u8>
    decreases width,
{
    if width == 0 {
        Seq::<u8>::empty()
    } else {
        seq![(value % 256) as u8] + le_bytes(value / 256, (width - 1) as nat)
    }
}

/// The powers of 256 at the widths of the integer types.
pub proof fn lemma_pow256_values()
    ensures
        pow256(0) == 1,
        pow256(1) == 0x100,
        pow256(2) == 0x1_0000,
        pow256(4) == 0x1_0000_0000,
        pow256(8) == 0x1_0000_0000_0000_0000,
        pow256(15) == 0x100_0000_0000_0000_0000_0000_0000_0000,
        pow256(16) == u128::MAX + 1,
{
    reveal_with_fuel(pow256, 17);
}

/// `pow256` grows with its argument.
pub proof fn lemma_pow256_monotonic(a: nat, b: nat)
    requires
        a <= b,
    ensures
        0 < pow256(a) <= pow256(b),
    decreases b,
{
    if a < b {
        lemma_pow256_monotonic(a, (b - 1) as nat);
    } else if a > 0 {
        lemma_pow256_monotonic((a - 1) as nat, (b - 1) as nat);
    }
}

/// `le_bytes` yields exactly `width` bytes.
pub proof fn lemma_le_bytes_len(value: nat, width: nat)
    ensures
        le_bytes(value, width).len() == width,
    decreases width,
{
    if width > 0 {
        lemma_le_bytes_len(value / 256, (width - 1) as nat);
    }
}

/// A byte string of length `n` stands for a number below `256^n`.
pub proof fn lemma_le_value_bound(bytes: Seq<u8>)
    ensures
        le_value(bytes) < pow256(bytes.len()),
    decreases bytes.len(),
{
    if bytes.len() > 0 {
        lemma_le_value_bound(bytes.drop_first());
    }
}

/// Reading back the bytes of a number that fits gives the number.
pub proof fn lemma_le_value_of_bytes(value: nat, width: nat)
    requires
        value < pow256(width),
    ensures
        le_value(le_bytes(value, width)) == value,
    decreases width,
{
    if width > 0 {
        let rest = le_bytes(value / 256, (width - 1) as nat);
        let all = le_bytes(value, width);
        assert(all.drop_first() =~= rest);
        assert(all[0] == (value % 256) as u8);
        lemma_le_value_of_bytes(value / 256, (width - 1) as nat);
    }
}

/// Writing the number of a byte string in the same width gives the string.
pub proof fn lemma_le_bytes_of_value(bytes: Seq<u8>)
    ensures
        le_bytes(le_value(bytes), bytes.len()) == bytes,
    decreases bytes.len(),
{
    if bytes.len() > 0 {
        let tail = bytes.drop_first();
        lemma_le_bytes_of_value(tail);
        let v = le_value(bytes);
        assert(v % 256 == bytes[0] as nat);
        assert(v / 256 == le_value(tail));
        assert(le_bytes(v, bytes.len()) =~= bytes);
    } else {
        assert(le_bytes(0, 0) =~= bytes);
    }
}

impl Integer {
    /// The mathematical value.
    pub open spec fn as_int(self) -> int {
        match self {
            Integer::Unsigned(v) => v as int,
            Integer::Signed(v) => v as int,
        }
    }

    /// The integer written as `digits` in decimal, behind a minus sign if
    /// `negative`: a signed one if it is negative or if `signed` asks for
    /// it, and nothing if it is out of range.
    pub open spec fn spec_from_decimal(negative: bool, digits: Seq<char>, signed: bool) -> Option<
        Integer,
    > {
        match decimal_value(digits) {
            None => None,
            Some(magnitude) => if negative {
                if magnitude <= i128::MAX + 1 {
                    Some(Integer::Signed((-magnitude) as i128))
                } else {
                    None
                }
            } else if signed {
                if magnitude <= i128::MAX {
                    Some(Integer::Signed(magnitude as i128))
                } else {
                    None
                }
            } else if magnitude <= u128::MAX {
                Some(Integer::Unsigned(magnitude as u128))
            } else {
                None
            },
        }
    }

    /// Reads the integer written as `digits` in decimal, behind a minus sign
    /// if `negative`. Gives a signed integer if it is negative or if `signed`
    /// asks for it.
    pub fn from_decimal(negative: bool, digits: &str, signed: bool) -> (number: Option<Integer>)
        ensures
            number == Self::spec_from_decimal(negative, digits@, signed),
            number is Some ==> number.unwrap().as_int() == (if negative {
                -(decimal_value(digits@).unwrap() as int)
            } else {
                decimal_value(digits@).unwrap() as int
            }),
    {
        match parse_decimal(digits) {
            None => None,
            Some(magnitude) => {
                if negative {
                    if magnitude > 0x8000_0000_0000_0000_0000_0000_0000_0000 {
                        None
                    } else if magnitude == 0x8000_0000_0000_0000_0000_0000_0000_0000 {
                        Some(Integer::Signed(i128::MIN))
                    } else {
                        Some(Integer::Signed(-(magnitude as i128)))
                    }
                } else if signed {
                    if magnitude > 0x7fff_ffff_ffff_ffff_ffff_ffff_ffff_ffff {
                        None
                    } else {
                        Some(Integer::Signed(magnitude as i128))
                    }
                } else {
                    Some(Integer::Unsigned(magnitude))
                }
            },
        }
    }
}

impl IntType {
    /// The number of bytes of the type.
    pub open spec fn spec_width(self) -> nat {
        match self {
            IntType::U8 | IntType::I8 => 1,
            IntType::U16 | IntType::I16 => 2,
            IntType::U32 | IntType::I32 => 4,
            IntType::U64 | IntType::I64 => 8,
            IntType::U128 | IntType::I128 => 16,
            IntType::Usize | IntType::Isize => if usize::MAX == 0xffff_ffff {
                4
            } else {
                8
            },
        }
    }

    /// Whether the type has negative values.
    pub open spec fn spec_signed(self) -> bool {
        match self {
            IntType::I8
            | IntType::I16
            | IntType::I32
            | IntType::I64
            | IntType::I128
            | IntType::Isize => true,
            _ => false,
        }
    }

    /// The number of values of the type.
    pub open spec fn modulus(self) -> nat {
        pow256(self.spec_width())
    }

    /// The least value of the type.
    pub open spec fn min_value(self) -> int {
        if self.spec_signed() {
            -(self.modulus() as int / 2)
        } else {
            0
        }
    }

    /// The greatest value of the type.
    pub open spec fn max_value(self) -> int {
        if self.spec_signed() {
            self.modulus() as int / 2 - 1
        } else {
            self.modulus() as int - 1
        }
    }

    /// The values of the type: of its signedness, and within its range.
    pub open spec fn admits(self, value: Integer) -> bool {
        &&& self.spec_signed() <==> value is Signed
        &&& self.min_value() <= value.as_int() <= self.max_value()
    }

    /// The unsigned number whose little-endian bytes store `value`: the
    /// value itself, or its two's complement when it is negative.
    pub open spec fn pattern(self, value: Integer) -> nat {
        if value.as_int() >= 0 {
            value.as_int() as nat
        } else {
            (value.as_int() + self.modulus()) as nat
        }
    }

    /// The value that `spec_width` bytes hold.
    pub open spec fn decode(self, bytes: Seq<u8>) -> Integer {
        let raw = le_value(bytes);
        if self.spec_signed() {
            if raw as int > self.max_value() {
                Integer::Signed((raw - self.modulus()) as i128)
            } else {
                Integer::Signed(raw as i128)
            }
        } else {
            Integer::Unsigned(raw as u128)
        }
    }

    /// The bytes that store `value`.
    pub open spec fn encode(self, value: Integer) -> Seq<u8> {
        le_bytes(self.pattern(value), self.spec_width())
    }

    /// The name of the type, as Rust spells it.
    pub open spec fn spec_name(self) -> Seq<char> {
        match self {
            IntType::U8 => "u8"@,
            IntType::U16 => "u16"@,
            IntType::U32 => "u32"@,
            IntType::U64 => "u64"@,
            IntType::U128 => "u128"@,
            IntType::I8 => "i8"@,
            IntType::I16 => "i16"@,
            IntType::I32 => "i32"@,
            IntType::I64 => "i64"@,
            IntType::I128 => "i128"@,
            IntType::Usize => "usize"@,
            IntType::Isize => "isize"@,
        }
    }

    /// The number of bytes of the type.
    pub fn width(self) -> (width: usize)
        ensures
            width == self.spec_width(),
            1 <= width <= 16,
    {
        match self {
            IntType::U8 | IntType::I8 => 1,
            IntType::U16 | IntType::I16 => 2,
            IntType::U32 | IntType::I32 => 4,
            IntType::U64 | IntType::I64 => 8,
            IntType::U128 | IntType::I128 => 16,
            IntType::Usize | IntType::Isize => if usize::MAX as u128 == 0xffff_ffff {
                4
            } else {
                8
            },
        }
    }

    /// Whether the type has negative values.
    pub fn is_signed(self) -> (signed: bool)
        ensures
            signed == self.spec_signed(),
    {
        match self {
            IntType::I8
            | IntType::I16
            | IntType::I32
            | IntType::I64
            | IntType::I128
            | IntType::Isize => true,
            _ => false,
        }
    }

    /// The name of the type, as Rust spells it.
    pub fn name(self) -> (name: &'static str)
        ensures
            name@ == self.spec_name(),
    {
        match self {
            IntType::U8 => "u8",
            IntType::U16 => "u16",
            IntType::U32 => "u32",
            IntType::U64 => "u64",
            IntType::U128 => "u128",
            IntType::I8 => "i8",
            IntType::I16 => "i16",
            IntType::I32 => "i32",
            IntType::I64 => "i64",
            IntType::I128 => "i128",
            IntType::Usize => "usize",
            IntType::Isize => "isize",
        }
    }

    /// The type that `name` names, if it names one.
    pub open spec fn spec_from_name(name: Seq<char>) -> Option<IntType> {
        if name == "u8"@ {
            Some(IntType::U8)
        } else if name == "u16"@ {
            Some(IntType::U16)
        } else if name == "u32"@ {
            Some(IntType::U32)
        } else if name == "u64"@ {
            Some(IntType::U64)
        } else if name == "u128"@ {
            Some(IntType::U128)
        } else if name == "i8"@ {
            Some(IntType::I8)
        } else if name == "i16"@ {
            Some(IntType::I16)
        } else if name == "i32"@ {
            Some(IntType::I32)
        } else if name == "i64"@ {
            Some(IntType::I64)
        } else if name == "i128"@ {
            Some(IntType::I128)
        } else if name == "usize"@ {
            Some(IntType::Usize)
        } else if name == "isize"@ {
            Some(IntType::Isize)
        } else {
            None
        }
    }

    /// The type that `name` names, if it names one: the type of a suffix, or
    /// of a width.
    pub fn from_name(name: &str) -> (ty: Option<IntType>)
        ensures
            ty == Self::spec_from_name(name@),
            ty is Some ==> ty.unwrap().spec_name() == name@,
    {
        let wanted = String::from_str(name);
        if wanted == String::from_str("u8") {
            Some(IntType::U8)
        } else if wanted == String::from_str("u16") {
            Some(IntType::U16)
        } else if wanted == String::from_str("u32") {
            Some(IntType::U32)
        } else if wanted == String::from_str("u64") {
            Some(IntType::U64)
        } else if wanted == String::from_str("u128") {
            Some(IntType::U128)
        } else if wanted == String::from_str("i8") {
            Some(IntType::I8)
        } else if wanted == String::from_str("i16") {
            Some(IntType::I16)
        } else if wanted == String::from_str("i32") {
            Some(IntType::I32)
        } else if wanted == String::from_str("i64") {
            Some(IntType::I64)
        } else if wanted == String::from_str("i128") {
            Some(IntType::I128)
        } else if wanted == String::from_str("usize") {
            Some(IntType::Usize)
        } else if wanted == String::from_str("isize") {
            Some(IntType::Isize)
        } else {
            None
        }
    }

    /// The greatest value of a signed type of fewer than 16 bytes.
    fn narrow_signed_max(self) -> (max: u128)
        requires
            self.spec_signed(),
            self != IntType::I128,
        ensures
            max == self.max_value(),
            2 * (max + 1) == self.modulus(),
            max < 0x8000_0000_0000_0000,
    {
        proof {
            lemma_pow256_values();
        }
        match self {
            IntType::I8 => 0x7f,
            IntType::I16 => 0x7fff,
            IntType::I32 => 0x7fff_ffff,
            IntType::Isize => if usize::MAX as u128 == 0xffff_ffff {
                0x7fff_ffff
            } else {
                0x7fff_ffff_ffff_ffff
            },
            _ => 0x7fff_ffff_ffff_ffff,
        }
    }

    /// Tells whether `value` is a value of the type.
    pub fn fits(self, value: Integer) -> (fits: bool)
        ensures
            fits == self.admits(value),
    {
        proof {
            lemma_pow256_values();
        }
        match value {
            Integer::Unsigned(v) => match self {
                IntType::U8 => v <= 0xff,
                IntType::U16 => v <= 0xffff,
                IntType::U32 => v <= 0xffff_ffff,
                IntType::U64 => v <= 0xffff_ffff_ffff_ffff,
                IntType::U128 => true,
                IntType::Usize => v <= usize::MAX as u128,
                _ => false,
            },
            Integer::Signed(v) => match self {
                IntType::I8 => -0x80 <= v && v <= 0x7f,
                IntType::I16 => -0x8000 <= v && v <= 0x7fff,
                IntType::I32 => -0x8000_0000 <= v && v <= 0x7fff_ffff,
                IntType::I64 => -0x8000_0000_0000_0000 <= v && v <= 0x7fff_ffff_ffff_ffff,
                IntType::I128 => true,
                IntType::Isize => isize::MIN as i128 <= v && v <= isize::MAX as i128,
                _ => false,
            },
        }
    }

    /// Decodes the `width` bytes of `slice`, least significant byte first.
    pub fn read(self, slice: &[u8]) -> (value: Integer)
        requires
            slice@.len() == self.spec_width(),
        ensures
            value == self.decode(slice@),
            self.admits(value),
    {
        let raw = read_unsigned(slice);
        proof {
            lemma_pow256_values();
            lemma_le_value_bound(slice@);
        }
        if self.is_signed() {
            if let IntType::I128 = self {
                if raw > 0x7fff_ffff_ffff_ffff_ffff_ffff_ffff_ffff {
                    let below = (u128::MAX - raw) as i128;
                    Integer::Signed(-below - 1)
                } else {
                    Integer::Signed(raw as i128)
                }
            } else {
                let max = self.narrow_signed_max();
                if raw > max {
                    let above = (raw - max - 1) as i128;
                    Integer::Signed(above - (max as i128) - 1)
                } else {
                    Integer::Signed(raw as i128)
                }
            }
        } else {
            Integer::Unsigned(raw)
        }
    }

    /// Encodes `value` into the bytes of `slice` from position `start` on,
    /// least significant byte first.
    pub fn write_at(self, value: Integer, slice: &mut [u8], start: usize)
        requires
            self.admits(value),
            start + self.spec_width() <= old(slice)@.len(),
        ensures
            final(slice)@ == splice(old(slice)@, start as int, self.encode(value)),
    {
        proof {
            lemma_pow256_values();
        }
        let raw: u128 = match value {
            Integer::Unsigned(v) => v,
            Integer::Signed(v) => {
                if v >= 0 {
                    v as u128
                } else {
                    let below = (-(v + 1)) as u128;
                    if let IntType::I128 = self {
                        u128::MAX - below
                    } else {
                        let max = self.narrow_signed_max();
                        max - below + max + 1
                    }
                }
            },
        };
        write_unsigned(raw, slice, start, self.width());
    }

    /// Encodes `value` into the `width` bytes of `slice`, least significant
    /// byte first.
    pub fn write(self, value: Integer, slice: &mut [u8])
        requires
            self.admits(value),
            old(slice)@.len() == self.spec_width(),
        ensures
            final(slice)@ == self.encode(value),
    {
        proof {
            lemma_le_bytes_len(self.pattern(value), self.spec_width());
            lemma_splice_trivial(old(slice)@, 0, self.encode(value));
        }
        self.write_at(value, slice, 0);
    }
}

/// Reads up to 16 bytes as one unsigned number, least significant byte first.
pub fn read_unsigned(slice: &[u8]) -> (value: u128)
    requires
        slice@.len() <= 16,
    ensures
        value == le_value(slice@),
{
    let len = slice.len();
    let mut acc: u128 = 0;
    let mut i: usize = len;
    while i > 0
        invariant
            i <= len,
            len == slice@.len(),
            len <= 16,
            acc == le_value(slice@.subrange(i as int, len as int)),
        decreases i,
    {
        i = i - 1;
        proof {
            let done = slice@.subrange(i as int + 1, len as int);
            let next = slice@.subrange(i as int, len as int);
            assert(next.drop_first() =~= done);
            lemma_le_value_bound(done);
            lemma_pow256_monotonic(done.len(), 15);
            lemma_pow256_values();
        }
        acc = acc * 256 + slice[i] as u128;
    }
    proof {
        assert(slice@.subrange(0, len as int) =~= slice@);
    }
    acc
}

/// Writes the `width` low bytes of `value` into `slice` from position `start`
/// on, least significant byte first.
pub fn write_unsigned(value: u128, slice: &mut [u8], start: usize, width: usize)
    requires
        start + width <= old(slice)@.len(),
    ensures
        final(slice)@ == splice(old(slice)@, start as int, le_bytes(value as nat, width as nat)),
{
    let total = slice.len();
    let mut rest: u128 = value;
    let mut i: usize = 0;
    proof {
        lemma_le_bytes_len(value as nat, width as nat);
        assert(slice@.subrange(start as int, start as int) + le_bytes(rest as nat, width as nat)
            =~= le_bytes(value as nat, width as nat));
    }
    while i < width
        invariant
            i <= width,
            start + width <= slice@.len(),
            slice@.len() == total,
            slice@.len() == old(slice)@.len(),
            slice@.subrange(0, start as int) == old(slice)@.subrange(0, start as int),
            slice@.subrange(start + width, slice@.len() as int) == old(slice)@.subrange(
                start + width,
                slice@.len() as int,
            ),
            slice@.subrange(start as int, start + i) + le_bytes(rest as nat, (width - i) as nat)
                == le_bytes(value as nat, width as nat),
        decreases width - i,
    {
        let ghost before = slice@;
        slice[start + i] = (rest % 256) as u8;
        proof {
            let tail = le_bytes((rest / 256) as nat, (width - i - 1) as nat);
            let written = before.subrange(start as int, start + i);
            assert(slice@.subrange(start as int, start + i + 1) =~= written.push(
                (rest % 256) as u8,
            ));
            assert(written.push((rest % 256) as u8) + tail =~= written + le_bytes(
                rest as nat,
                (width - i) as nat,
            ));
            assert(slice@.subrange(0, start as int) =~= before.subrange(0, start as int));
            assert(slice@.subrange(start + width, slice@.len() as int) =~= before.subrange(
                start + width,
                slice@.len() as int,
            ));
        }
        rest = rest / 256;
        i = i + 1;
    }
    proof {
        let piece = le_bytes(value as nat, width as nat);
        assert(le_bytes(rest as nat, 0) =~= Seq::<u8>::empty());
        assert(slice@.subrange(start as int, start + width) =~= piece);
        assert(slice@ =~= slice@.subrange(0, start as int) + slice@.subrange(
            start as int,
            start + width,
        ) + slice@.subrange(start + width, slice@.len() as int));
    }
}

/// Every run of `width` bytes decodes to a value of the type.
pub proof fn lemma_int_decode_admitted(ty: IntType, bytes: Seq<u8>)
    requires
        bytes.len() == ty.spec_width(),
    ensures
        ty.admits(ty.decode(bytes)),
        ty.pattern(ty.decode(bytes)) == le_value(bytes),
{
    lemma_pow256_values();
    lemma_le_value_bound(bytes);
}

/// Decoding the bytes of a value of the type gives the value back.
pub proof fn lemma_int_decode_encode(ty: IntType, value: Integer)
    requires
        ty.admits(value),
    ensures
        ty.encode(value).len() == ty.spec_width(),
        ty.decode(ty.encode(value)) == value,
{
    lemma_pow256_values();
    lemma_le_bytes_len(ty.pattern(value), ty.spec_width());
    lemma_le_value_of_bytes(ty.pattern(value), ty.spec_width());
}

/// Encoding the value that bytes decode to gives the bytes back.
pub proof fn lemma_int_encode_decode(ty: IntType, bytes: Seq<u8>)
    requires
        bytes.len() == ty.spec_width(),
    ensures
        ty.encode(ty.decode(bytes)) == bytes,
{
    lemma_int_decode_admitted(ty, bytes);
    lemma_le_bytes_of_value(bytes);
}

} // verus!
