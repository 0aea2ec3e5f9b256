//! The scalar function `sha2`: the SHA-2 digest of a value in hexadecimal,
//! with the digest length chosen by a second argument.

use vstd::prelude::*;

use crate::error::ErrorCode;
use crate::error::ErrorKind;
use crate::text::decimal;
use crate::text::decimal_text;

verus! {

/// The data types that a function can be asked about.
#[derive(Clone, Copy, Debug, PartialEq, Eq, Structural)]
pub enum TypeID {
    Null,
    Boolean,
    Int16,
    UInt16,
    UInt64,
    String,
}

/// The name of a data type, as it is shown in messages.
pub open spec fn name_of_type(t: TypeID) -> Seq<char> {
    match t {
        TypeID::Null => "Null"@,
        TypeID::Boolean => "Boolean"@,
        TypeID::Int16 => "Int16"@,
        TypeID::UInt16 => "UInt16"@,
        TypeID::UInt64 => "UInt64"@,
        TypeID::String => "String"@,
    }
}

impl TypeID {
    /// The name of the data type, as it is shown in messages.
    pub fn name(&self) -> (n: &'static str)
        ensures
            n@ == name_of_type(*self),
    {
        match self {
            TypeID::Null => "Null",
            TypeID::Boolean => "Boolean",
            TypeID::Int16 => "Int16",
            TypeID::UInt16 => "UInt16",
            TypeID::UInt64 => "UInt64",
            TypeID::String => "String",
        }
    }
}

/// The message of the error for a first argument that is no string.
pub open spec fn not_a_string_message(t: TypeID) -> Seq<char> {
    "Expected string arg, but got "@ + name_of_type(t)
}

/// What the function registry has to know about a function.
#[derive(Clone, Copy, Debug, PartialEq, Eq, Structural)]
pub struct FunctionFeatures {
    pub is_deterministic: bool,
    pub num_arguments: usize,
}

/// The members of the SHA-2 family that the function offers.
#[derive(Clone, Copy, Debug, PartialEq, Eq, Structural)]
pub enum Sha2Variant {
    Sha224,
    Sha256,
    Sha384,
    Sha512,
}

/// The member of the family that a length argument selects. Zero selects
/// the same member as 256.
pub open spec fn variant_of(length: nat) -> Option<Sha2Variant> {
    if length == 224 {
        Some(Sha2Variant::Sha224)
    } else if length == 256 || length == 0 {
        Some(Sha2Variant::Sha256)
    } else if length == 384 {
        Some(Sha2Variant::Sha384)
    } else if length == 512 {
        Some(Sha2Variant::Sha512)
    } else {
        None
    }
}

/// The SHA-224 digest of the data, in lower-case hexadecimal.
pub uninterp spec fn sha224_hex(data: Seq<u8>) -> Seq<char>;

/// The SHA-256 digest of the data, in lower-case hexadecimal.
pub uninterp spec fn sha256_hex(data: Seq<u8>) -> Seq<char>;

/// The SHA-384 digest of the data, in lower-case hexadecimal.
pub uninterp spec fn sha384_hex(data: Seq<u8>) -> Seq<char>;

/// The SHA-512 digest of the data, in lower-case hexadecimal.
pub uninterp spec fn sha512_hex(data: Seq<u8>) -> Seq<char>;

/// The digest of the data under the given member of the family, in hexadecimal.
pub open spec fn digest_hex(variant: Sha2Variant, data: Seq<u8>) -> Seq<char> {
    match variant {
        Sha2Variant::Sha224 => sha224_hex(data),
        Sha2Variant::Sha256 => sha256_hex(data),
        Sha2Variant::Sha384 => sha384_hex(data),
        Sha2Variant::Sha512 => sha512_hex(data),
    }
}

/// Hashes the data with `sha2::Sha224` and formats the digest with `{:x}`.
/// Trusted: that the text depends on the data alone.
#[verifier::external_body]
fn sha224_digest(data: &Vec<u8>) -> (hex: String)
    ensures
        hex@ == sha224_hex(data@),
{
    let mut h = <sha2::Sha224 as sha2::Digest>::new();
    sha2::Digest::update(&mut h, data);
    format!("{:x}", sha2::Digest::finalize(h))
}

/// Hashes the data with `sha2::Sha256` and formats the digest with `{:x}`.
/// Trusted: that the text depends on the data alone.
#[verifier::external_body]
fn sha256_digest(data: &Vec<u8>) -> (hex: String)
    ensures
        hex@ == sha256_hex(data@),
{
    let mut h = <sha2::Sha256 as sha2::Digest>::new();
    sha2::Digest::update(&mut h, data);
    format!("{:x}", sha2::Digest::finalize(h))
}

/// Hashes the data with `sha2::Sha384` and formats the digest with `{:x}`.
/// Trusted: that the text depends on the data alone.
#[verifier::external_body]
fn sha384_digest(data: &Vec<u8>) -> (hex: String)
    ensures
        hex@ == sha384_hex(data@),
{
    let mut h = <sha2::Sha384 as sha2::Digest>::new();
    sha2::Digest::update(&mut h, data);
    format!("{:x}", sha2::Digest::finalize(h))
}

/// Hashes the data with `sha2::Sha512` and formats the digest with `{:x}`.
/// Trusted: that the text depends on the data alone.
#[verifier::external_body]
fn sha512_digest(data: &Vec<u8>) -> (hex: String)
    ensures
        hex@ == sha512_hex(data@),
{
    let mut h = <sha2::Sha512 as sha2::Digest>::new();
    sha2::Digest::update(&mut h, data);
    format!("{:x}", sha2::Digest::finalize(h))
}

/// The length argument of `sha2`: one length for all rows, or one for each row.
#[derive(Clone, Debug)]
pub enum Sha2Lengths {
    Constant(u64),
    PerRow(Vec<u16>),
}

/// The number of rows that an evaluation covers.
pub open spec fn row_count(values: Seq<Vec<u8>>, lengths: Sha2Lengths) -> nat {
    match lengths {
        Sha2Lengths::Constant(l) => values.len(),
        Sha2Lengths::PerRow(ls) => if values.len() <= ls@.len() {
            values.len()
        } else {
            ls@.len()
        },
    }
}

/// The length that applies to a row.
pub open spec fn length_at(lengths: Sha2Lengths, row: int) -> nat {
    match lengths {
        Sha2Lengths::Constant(l) => l as nat,
        Sha2Lengths::PerRow(ls) => ls@[row] as nat,
    }
}

/// Whether the evaluation meets a length that selects no member of the
/// family. A constant length counts even where there is no row.
pub open spec fn has_bad_length(values: Seq<Vec<u8>>, lengths: Sha2Lengths) -> bool {
    match lengths {
        Sha2Lengths::Constant(l) => variant_of(l as nat) is None,
        Sha2Lengths::PerRow(ls) => exists|i: int|
            0 <= i < row_count(values, lengths) && variant_of(#[trigger] ls@[i] as nat) is None,
    }
}

/// Whether `row` is the first row with a length that selects no member of the family.
pub open spec fn first_bad_row(values: Seq<Vec<u8>>, lengths: Sha2Lengths, row: int) -> bool {
    &&& lengths is PerRow
    &&& 0 <= row < row_count(values, lengths)
    &&& variant_of(length_at(lengths, row)) is None
    &&& forall|j: int| 0 <= j < row ==> variant_of(#[trigger] length_at(lengths, j)) is Some
}

/// The message of the error for a length that selects no member of the family.
pub open spec fn bad_length_message(length: nat) -> Seq<char> {
    "Expected [0, 224, 256, 384, 512] as sha2 encode options, but got "@ + decimal_text(length)
}

/// The scalar function `sha2`.
#[derive(Clone, Debug)]
pub struct Sha2HashFunction {
    display_name: String,
}

impl Sha2HashFunction {
    /// The function under the given name.
    pub fn try_create(display_name: &str) -> (r: Result<Sha2HashFunction, ErrorCode>)
        ensures
            r is Ok,
            r->Ok_0.spec_name() == display_name@,
    {
        Ok(Sha2HashFunction { display_name: display_name.to_owned() })
    }

    /// The name that the function was created under.
    pub closed spec fn spec_name(&self) -> Seq<char> {
        self.display_name@
    }

    /// What the registry has to know: the function is deterministic and takes two arguments.
    pub fn desc() -> (f: FunctionFeatures)
        ensures
            f == (FunctionFeatures { is_deterministic: true, num_arguments: 2 }),
    {
        FunctionFeatures { is_deterministic: true, num_arguments: 2 }
    }

    /// The name that the function was created under.
    pub fn name(&self) -> (n: &str)
        ensures
            n@ == self.spec_name(),
    {
        self.display_name.as_str()
    }

    /// The name of the function, as it is shown.
    pub fn display(&self) -> (n: String)
        ensures
            n@ == self.spec_name(),
    {
        self.display_name.clone()
    }

    /// The type of the result, which is a string, for a first argument that
    /// is a string. Any other first argument is refused with
    /// `IllegalDataType`, the message naming the type that was found. The
    /// arguments after the first are not looked at.
    pub fn return_type(&self, args: &Vec<TypeID>) -> (r: Result<TypeID, ErrorCode>)
        requires
            args@.len() > 0,
        ensures
            r is Ok <==> args@[0] == TypeID::String,
            r is Ok ==> r->Ok_0 == TypeID::String,
            r is Err ==> r->Err_0.kind == ErrorKind::IllegalDataType,
            r is Err ==> r->Err_0.message@ == not_a_string_message(args@[0]),
    {
        match args[0] {
            TypeID::String => Ok(TypeID::String),
            found => {
                let mut message = "Expected string arg, but got ".to_owned();
                message.append(found.name());
                Err(ErrorCode { kind: ErrorKind::IllegalDataType, message })
            },
        }
    }

    /// The digest of one value under the member of the family that the
    /// length selects, or nothing where it selects none.
    pub fn digest(value: &Vec<u8>, length: u64) -> (r: Option<String>)
        ensures
            r is Some <==> variant_of(length as nat) is Some,
            r is Some ==> r->Some_0@ == digest_hex(variant_of(length as nat)->Some_0, value@),
    {
        if length == 224 {
            Some(sha224_digest(value))
        } else if length == 256 || length == 0 {
            Some(sha256_digest(value))
        } else if length == 384 {
            Some(sha384_digest(value))
        } else if length == 512 {
            Some(sha512_digest(value))
        } else {
            None
        }
    }

    fn bad_length(length: u64) -> (e: ErrorCode)
        ensures
            e.kind == ErrorKind::BadArguments,
            e.message@ == bad_length_message(length as nat),
    {
        let mut message =
            "Expected [0, 224, 256, 384, 512] as sha2 encode options, but got ".to_owned();
        let number = decimal(length as u128);
        message.append(number.as_str());
        ErrorCode { kind: ErrorKind::BadArguments, message }
    }

    /// Evaluates the function row by row: the digest of each value under the
    /// member of the family that the length of its row selects. With a
    /// length for each row the rows end where either column ends. A length
    /// that selects no member is refused with `BadArguments`, the message
    /// naming the first such length.
    pub fn eval(&self, values: &Vec<Vec<u8>>, lengths: &Sha2Lengths) -> (r: Result<
        Vec<String>,
        ErrorCode,
    >)
        ensures
            r is Ok <==> !has_bad_length(values@, *lengths),
            r is Ok ==> r->Ok_0@.len() == row_count(values@, *lengths) && forall|i: int|
                0 <= i < r->Ok_0@.len() ==> (#[trigger] r->Ok_0@[i])@ == digest_hex(
                    variant_of(length_at(*lengths, i))->Some_0,
                    values@[i]@,
                ),
            r is Err ==> r->Err_0.kind == ErrorKind::BadArguments,
            r is Err ==> match *lengths {
                Sha2Lengths::Constant(l) => r->Err_0.message@ == bad_length_message(l as nat),
                Sha2Lengths::PerRow(ls) => exists|row: int|
                    first_bad_row(values@, *lengths, row) && r->Err_0.message@
                        == bad_length_message(#[trigger] length_at(*lengths, row)),
            },
    {
        let mut out: Vec<String> = Vec::new();
        match lengths {
            Sha2Lengths::Constant(l) => {
                if !(*l == 224 || *l == 256 || *l == 0 || *l == 384 || *l == 512) {
                    return Err(Self::bad_length(*l));
                }
                let mut i: usize = 0;
                while i < values.len()
                    invariant
                        i <= values@.len(),
                        variant_of(*l as nat) is Some,
                        out@.len() == i,
                        forall|j: int|
                            0 <= j < i ==> (#[trigger] out@[j])@ == digest_hex(
                                variant_of(*l as nat)->Some_0,
                                values@[j]@,
                            ),
                    decreases values@.len() - i,
                {
                    match Self::digest(&values[i], *l) {
                        Some(hex) => {
                            out.push(hex);
                        },
                        None => {},
                    }
                    i += 1;
                }
                Ok(out)
            },
            Sha2Lengths::PerRow(ls) => {
                let n: usize = if values.len() <= ls.len() {
                    values.len()
                } else {
                    ls.len()
                };
                let mut i: usize = 0;
                while i < n
                    invariant
                        i <= n,
                        n == row_count(values@, *lengths),
                        *lengths == Sha2Lengths::PerRow(*ls),
                        n <= values@.len(),
                        n <= ls@.len(),
                        out@.len() == i,
                        forall|j: int|
                            0 <= j < i ==> variant_of(#[trigger] length_at(*lengths, j)) is Some,
                        forall|j: int|
                            0 <= j < i ==> (#[trigger] out@[j])@ == digest_hex(
                                variant_of(length_at(*lengths, j))->Some_0,
                                values@[j]@,
                            ),
                    decreases n - i,
                {
                    match Self::digest(&values[i], ls[i] as u64) {
                        Some(hex) => {
                            out.push(hex);
                        },
                        None => {
                            assert(first_bad_row(values@, *lengths, i as int));
                            assert(variant_of(ls@[i as int] as nat) is None);
                            return Err(Self::bad_length(ls[i] as u64));
                        },
                    }
                    i += 1;
                }
                assert forall|k: int| 0 <= k < row_count(values@, *lengths) implies variant_of(
                    #[trigger] ls@[k] as nat,
                ) is Some by {
                    assert(variant_of(length_at(*lengths, k)) is Some);
                }
                Ok(out)
            },
        }
    }
}

} // verus!
