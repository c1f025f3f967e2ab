//! The fixed-value engine: types whose whole content is one literal.
//!
//! The only legal content of a unit type is the literal's own bytes: the
//! UTF-8 bytes of a string or a character, the bytes of a byte string, and
//! the little-endian bytes of an integer in the width of its suffix.

use vstd::prelude::*;
use vstd::string::StringExecFns;
use vstd::string::StringSliceAdditionalSpecFns;
use vstd::utf8::{decode_utf8, encode_utf8, encode_utf8_decode_utf8, valid_utf8};

use crate::ast::Lit;
use crate::bytes::{bytes_eq, copy_at, splice};
use crate::error::{Error, ErrorView};
use crate::primitives::{
    lemma_int_decode_encode,
    lemma_int_encode_decode,
    lemma_le_bytes_len,
};
use crate::text::{
    byte_list,
    lossy,
    lossy_text,
    parse_utf8,
    push_byte_list,
    push_char,
    push_integer,
    push_upper_hex,
    signed_decimal,
    upper_hex,
    utf8_error_text,
};

verus! {

impl Lit {
    /// Whether a layout can store the literal: it is a string, a byte
    /// string, a byte, a character, or an integer that has a suffix and is a
    /// value of the type that the suffix names.
    pub open spec fn supported(&self) -> bool {
        match self {
            Lit::Str { .. } | Lit::ByteStr { .. } | Lit::Byte { .. } | Lit::Char { .. } => true,
            Lit::Int { token, value, suffix } => suffix is Some && suffix.unwrap().admits(*value),
            _ => false,
        }
    }

    /// The bytes that store the literal.
    pub open spec fn content(&self) -> Seq<u8> {
        match self {
            Lit::Str { token, value } => encode_utf8(value@),
            Lit::ByteStr { token, value } => value@,
            Lit::Byte { token, value } => seq![*value],
            Lit::Char { token, value } => encode_utf8(seq![*value]),
            Lit::Int { token, value, suffix } => suffix.unwrap().encode(*value),
            _ => Seq::<u8>::empty(),
        }
    }

    /// The number of bytes that store the literal.
    pub open spec fn spec_size(&self) -> nat {
        self.content().len()
    }

    /// The comparison that `check` makes of a byte string, a byte or an
    /// integer, as diagnostics show it.
    pub open spec fn assumption(&self) -> Seq<char> {
        match self {
            Lit::ByteStr { token, value } => "slice == "@ + token@,
            Lit::Byte { token, value } => "slice[0] == "@ + token@,
            Lit::Int { token, value, suffix } => "int == "@ + token@,
            _ => Seq::<char>::empty(),
        }
    }

    /// What was expected and what was received, where `bytes` are not the
    /// byte string, the byte or the integer that the literal is.
    pub open spec fn complaint(&self, bytes: Seq<u8>) -> Seq<char> {
        match self {
            Lit::ByteStr { token, value } => "Invalid string, expected "@ + byte_list(value@)
                + " but received "@ + byte_list(bytes),
            Lit::Byte { token, value } => "Invalid byte string, expected "@ + upper_hex(
                *value as nat,
            ) + " but received "@ + upper_hex(bytes[0] as nat),
            Lit::Int { token, value, suffix } => "Invalid packed integer, expected "@
                + signed_decimal(value.as_int()) + " but received "@ + signed_decimal(
                suffix.unwrap().decode(bytes).as_int(),
            ),
            _ => Seq::<char>::empty(),
        }
    }

    /// The error of `bytes` that are not the content of the literal, for the
    /// unit type named `ident`.
    ///
    /// An integer is reported under the name of its own type. Bytes that
    /// should be a character and are not UTF-8 are reported as such, with
    /// the decoder's complaint for the cause.
    pub open spec fn mismatch(&self, ident: Seq<char>, bytes: Seq<u8>) -> ErrorView {
        match self {
            Lit::Str { token, value } => string_mismatch_of(
                ident,
                token@,
                value@,
                shown_text(bytes),
            ),
            Lit::Char { token, value } => char_mismatch_of(
                ident,
                token@,
                *value,
                if valid_utf8(bytes) {
                    Ok(decode_utf8(bytes))
                } else {
                    Err(utf8_error_text(bytes))
                },
            ),
            Lit::Int { token, value, suffix } => ErrorView::Assumption {
                ty: suffix.unwrap().spec_name(),
                assumption: self.assumption(),
                message: self.complaint(bytes),
            },
            _ => ErrorView::Assumption {
                ty: ident,
                assumption: self.assumption(),
                message: self.complaint(bytes),
            },
        }
    }

    /// The number of bytes that store the literal.
    pub fn size(&self) -> (size: usize)
        requires
            self.supported(),
        ensures
            size == self.spec_size(),
    {
        match self {
            Lit::Str { token, value } => value.as_str().as_bytes().len(),
            Lit::ByteStr { token, value } => value.len(),
            Lit::Byte { token, value } => 1,
            Lit::Char { token, value } => {
                let text = char_text(*value);
                text.as_str().as_bytes().len()
            },
            Lit::Int { token, value, suffix } => {
                proof {
                    lemma_le_bytes_len(
                        suffix.unwrap().pattern(*value),
                        suffix.unwrap().spec_width(),
                    );
                }
                suffix.unwrap().width()
            },
            _ => 0,
        }
    }

    /// Tells whether `slice` holds the literal, and if not, how it differs.
    pub fn check(&self, ident: &str, slice: &[u8]) -> (result: Result<(), Error>)
        requires
            self.supported(),
            slice@.len() == self.spec_size(),
        ensures
            slice@ == self.content() ==> result is Ok,
            slice@ != self.content() ==> result is Err && result->Err_0@ == self.mismatch(
                ident@,
                slice@,
            ),
    {
        match self {
            Lit::Str { token, value } => {
                if bytes_eq(slice, value.as_str().as_bytes()) {
                    return Ok(());
                }
                let received = lossy(slice);
                Err(string_mismatch(ident, token.as_str(), value.as_str(), received.as_str()))
            },
            Lit::ByteStr { token, value } => {
                if bytes_eq(slice, value.as_slice()) {
                    return Ok(());
                }
                let mut assumption = String::from_str("slice == ");
                assumption.append(token.as_str());
                let mut message = String::from_str("Invalid string, expected ");
                push_byte_list(&mut message, value.as_slice());
                message.append(" but received ");
                push_byte_list(&mut message, slice);
                Err(Error::Assumption { ty: String::from_str(ident), assumption, message })
            },
            Lit::Byte { token, value } => {
                if slice[0] == *value {
                    assert(slice@ =~= seq![*value]);
                    return Ok(());
                }
                let mut assumption = String::from_str("slice[0] == ");
                assumption.append(token.as_str());
                let mut message = String::from_str("Invalid byte string, expected ");
                push_upper_hex(&mut message, *value as u128);
                message.append(" but received ");
                push_upper_hex(&mut message, slice[0] as u128);
                Err(Error::Assumption { ty: String::from_str(ident), assumption, message })
            },
            Lit::Char { token, value } => {
                let expected = char_text(*value);
                if bytes_eq(slice, expected.as_str().as_bytes()) {
                    return Ok(());
                }
                let decoded = parse_utf8(slice);
                proof {
                    if decoded is Ok {
                        encode_utf8_decode_utf8(decoded->Ok_0@);
                    }
                }
                Err(char_mismatch(ident, token.as_str(), *value, decoded))
            },
            Lit::Int { token, value, suffix } => {
                let ty = suffix.unwrap();
                proof {
                    lemma_le_bytes_len(ty.pattern(*value), ty.spec_width());
                }
                let received = ty.read(slice);
                proof {
                    lemma_int_encode_decode(ty, slice@);
                    lemma_int_decode_encode(ty, *value);
                }
                if received == *value {
                    return Ok(());
                }
                let mut assumption = String::from_str("int == ");
                assumption.append(token.as_str());
                let mut message = String::from_str("Invalid packed integer, expected ");
                push_integer(&mut message, *value);
                message.append(" but received ");
                push_integer(&mut message, received);
                Err(Error::Assumption { ty: String::from_str(ty.name()), assumption, message })
            },
            _ => Ok(()),
        }
    }

    /// Writes the literal into `slice` from position `start` on.
    pub fn write_at(&self, slice: &mut [u8], start: usize)
        requires
            self.supported(),
            start + self.spec_size() <= old(slice)@.len(),
        ensures
            final(slice)@ == splice(old(slice)@, start as int, self.content()),
    {
        match self {
            Lit::Str { token, value } => copy_at(slice, start, value.as_str().as_bytes()),
            Lit::ByteStr { token, value } => copy_at(slice, start, value.as_slice()),
            Lit::Byte { token, value } => {
                slice[start] = *value;
                assert(slice@ =~= splice(old(slice)@, start as int, seq![*value]));
            },
            Lit::Char { token, value } => {
                let text = char_text(*value);
                copy_at(slice, start, text.as_str().as_bytes());
            },
            Lit::Int { token, value, suffix } => {
                proof {
                    lemma_le_bytes_len(
                        suffix.unwrap().pattern(*value),
                        suffix.unwrap().spec_width(),
                    );
                }
                suffix.unwrap().write_at(*value, slice, start);
            },
            _ => {
                assert(slice@ =~= splice(old(slice)@, start as int, Seq::<u8>::empty()));
            },
        }
    }
}

/// The text that diagnostics show for bytes that should be a string: the
/// text that the bytes encode if they are UTF-8, and else what
/// `String::from_utf8_lossy` makes of them.
pub open spec fn shown_text(bytes: Seq<u8>) -> Seq<char> {
    if valid_utf8(bytes) {
        decode_utf8(bytes)
    } else {
        lossy_text(bytes)
    }
}

/// The error of bytes that are not the string `expected`, which is written
/// `token` and is the content of the unit type `ident`; `received` is the
/// text that the bytes are shown as.
pub open spec fn string_mismatch_of(
    ident: Seq<char>,
    token: Seq<char>,
    expected: Seq<char>,
    received: Seq<char>,
) -> ErrorView {
    ErrorView::Assumption {
        ty: ident,
        assumption: "slice == "@ + token + ".as_bytes()"@,
        message: "Invalid string, expected "@ + expected + " but received "@ + received,
    }
}

/// The error of bytes that are not the character `expected`, which is
/// written `token` and is the content of the unit type `ident`; `decoded` is
/// the text that the bytes encode, or the decoder's complaint if they are
/// not UTF-8.
pub open spec fn char_mismatch_of(
    ident: Seq<char>,
    token: Seq<char>,
    expected: char,
    decoded: Result<Seq<char>, Seq<char>>,
) -> ErrorView {
    match decoded {
        Ok(received) => ErrorView::Assumption {
            ty: ident,
            assumption: "c.chars().next() == Some("@ + token + ")"@,
            message: "Invalid UTF8 encoded char, expected "@ + seq![expected]
                + " but received "@ + received,
        },
        Err(complaint) => ErrorView::Message(complaint).in_context(
            "&str"@,
            ErrorView::Message("Failed to parse valid utf8 char from the slice"@),
        ),
    }
}

/// Makes the error of bytes that are not the string `expected`, which is
/// written `token` and is the content of the unit type `ident`; `received`
/// is the text that the bytes are shown as.
pub fn string_mismatch(ident: &str, token: &str, expected: &str, received: &str) -> (error: Error)
    ensures
        error@ == string_mismatch_of(ident@, token@, expected@, received@),
{
    let mut assumption = String::from_str("slice == ");
    assumption.append(token);
    assumption.append(".as_bytes()");
    let mut message = String::from_str("Invalid string, expected ");
    message.append(expected);
    message.append(" but received ");
    message.append(received);
    Error::Assumption { ty: String::from_str(ident), assumption, message }
}

/// Makes the error of bytes that are not the character `expected`, which is
/// written `token` and is the content of the unit type `ident`; `decoded` is
/// the text that the bytes encode, or the decoder's complaint if they are
/// not UTF-8.
pub fn char_mismatch(ident: &str, token: &str, expected: char, decoded: Result<&str, String>) -> (error:
    Error)
    ensures
        error@ == char_mismatch_of(
            ident@,
            token@,
            expected,
            match decoded {
                Ok(received) => Ok(received@),
                Err(complaint) => Err(complaint@),
            },
        ),
{
    match decoded {
        Ok(received) => {
            let mut assumption = String::from_str("c.chars().next() == Some(");
            assumption.append(token);
            assumption.append(")");
            let mut message = String::from_str("Invalid UTF8 encoded char, expected ");
            let shown = char_text(expected);
            message.append(shown.as_str());
            message.append(" but received ");
            message.append(received);
            Error::Assumption { ty: String::from_str(ident), assumption, message }
        },
        Err(complaint) => {
            proof {
                reveal_with_fuel(Error::model, 4);
            }
            Error::Context {
                ty: String::from_str("&str"),
                error: Box::new(Error::message("Failed to parse valid utf8 char from the slice")),
                cause: Box::new(Error::Custom(Box::new(Error::Message(complaint)))),
            }
        },
    }
}

/// The string of one character.
fn char_text(c: char) -> (text: String)
    ensures
        text@ == seq![c],
{
    let mut text = String::new();
    push_char(&mut text, c);
    assert(text@ =~= seq![c]);
    text
}

} // verus!
