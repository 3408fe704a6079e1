//! Sequential reading of separator-delimited typed fields from one text buffer.
use vstd::prelude::*;
use vstd::string::*;

use crate::values::{is_real, is_real_text, int_in_range, parse_integer};

verus! {

#[derive(Debug, PartialEq, Eq, Structural, Clone, Copy)]
pub enum ReadResult {
    /// No field left, or the field is textually empty
    Empty,
    /// The field's text does not denote a value of the requested type
    InvalidFormat,
    /// The buffer could not be decoded as text
    InternalError,
}

impl ReadResult {
    /// Human-readable description of the failure.
    pub fn describe(&self) -> (r: &'static str)
        ensures
            *self == ReadResult::Empty ==> r@ == "Empty"@,
            *self == ReadResult::InvalidFormat ==> r@ == "Invalid format"@,
            *self == ReadResult::InternalError ==> r@ == "Internal parsing error"@,
    {
        match self {
            ReadResult::Empty => "Empty",
            ReadResult::InvalidFormat => "Invalid format",
            ReadResult::InternalError => "Internal parsing error",
        }
    }
}

/// Number of characters of `s` before its first `sep` (all of them when there is none).
pub open spec fn field_len(s: Seq<char>, sep: char) -> nat
    decreases s.len(),
{
    if s.len() == 0 {
        0
    } else if s[0] == sep {
        0
    } else {
        1 + field_len(s.drop_first(), sep)
    }
}

/// Index in `s` where the text after its first field starts.
pub open spec fn after_first(s: Seq<char>, sep: char) -> int {
    if field_len(s, sep) + 1 <= s.len() {
        field_len(s, sep) + 1int
    } else {
        s.len() as int
    }
}

/// The fields of `s`: the texts between separators, in order. A separator that
/// ends the text opens no further field, so `"a,"` holds one field and `""` none.
pub open spec fn split_fields(s: Seq<char>, sep: char) -> Seq<Seq<char>>
    decreases s.len(),
{
    if s.len() == 0 {
        Seq::empty()
    } else {
        seq![s.subrange(0, field_len(s, sep) as int)] + split_fields(
            s.subrange(after_first(s, sep), s.len() as int),
            sep,
        )
    }
}

pub proof fn lemma_field_len(s: Seq<char>, sep: char, n: int)
    requires
        0 <= n <= s.len(),
        forall|k: int| 0 <= k < n ==> s[k] != sep,
        n == s.len() || s[n] == sep,
    ensures
        field_len(s, sep) == n,
    decreases n,
{
    if n > 0 {
        lemma_field_len(s.drop_first(), sep, n - 1);
    }
}

/// A type whose values can be read from the text of one field.
pub trait FieldValue: Sized {
    /// `s` is the text of some value of this type.
    spec fn spec_accepts(s: Seq<char>) -> bool;

    /// `v` is the value that the text `s` denotes.
    spec fn spec_denotes(s: Seq<char>, v: Self) -> bool;

    fn parse_text(s: &str) -> (r: Option<Self>)
        ensures
            r is Some <==> Self::spec_accepts(s@),
            r matches Some(v) ==> Self::spec_denotes(s@, v),
    ;
}

impl FieldValue for String {
    open spec fn spec_accepts(s: Seq<char>) -> bool {
        true
    }

    open spec fn spec_denotes(s: Seq<char>, v: String) -> bool {
        v@ == s
    }

    fn parse_text(s: &str) -> (r: Option<String>) {
        Some(String::from_str(s))
    }
}

impl FieldValue for u8 {
    open spec fn spec_accepts(s: Seq<char>) -> bool {
        int_in_range(s, false, 0, 0xff) is Some
    }

    open spec fn spec_denotes(s: Seq<char>, v: u8) -> bool {
        int_in_range(s, false, 0, 0xff) == Some(v as int)
    }

    fn parse_text(s: &str) -> (r: Option<u8>) {
        match parse_integer(s, false, 0, 0xff) {
            Some(v) => Some(v as u8),
            None => None,
        }
    }
}

impl FieldValue for u16 {
    open spec fn spec_accepts(s: Seq<char>) -> bool {
        int_in_range(s, false, 0, 0xffff) is Some
    }

    open spec fn spec_denotes(s: Seq<char>, v: u16) -> bool {
        int_in_range(s, false, 0, 0xffff) == Some(v as int)
    }

    fn parse_text(s: &str) -> (r: Option<u16>) {
        match parse_integer(s, false, 0, 0xffff) {
            Some(v) => Some(v as u16),
            None => None,
        }
    }
}

impl FieldValue for i32 {
    open spec fn spec_accepts(s: Seq<char>) -> bool {
        int_in_range(s, true, -0x8000_0000, 0x7fff_ffff) is Some
    }

    open spec fn spec_denotes(s: Seq<char>, v: i32) -> bool {
        int_in_range(s, true, -0x8000_0000, 0x7fff_ffff) == Some(v as int)
    }

    fn parse_text(s: &str) -> (r: Option<i32>) {
        match parse_integer(s, true, -0x8000_0000, 0x7fff_ffff) {
            Some(v) => Some(v as i32),
            None => None,
        }
    }
}

/// A real number, kept as the decimal text it was written in. Its text is
/// always accepted by the standard library's float parser.
#[derive(Debug, Clone, PartialEq)]
pub struct Real {
    text: String,
}

impl View for Real {
    type V = Seq<char>;

    closed spec fn view(&self) -> Seq<char> {
        self.text@
    }
}

impl Real {
    /// The text of the number.
    pub fn as_str(&self) -> (r: &str)
        ensures
            r@ == self@,
    {
        self.text.as_str()
    }
}

impl FieldValue for Real {
    open spec fn spec_accepts(s: Seq<char>) -> bool {
        is_real_text(s)
    }

    open spec fn spec_denotes(s: Seq<char>, v: Real) -> bool {
        v@ == s
    }

    fn parse_text(s: &str) -> (r: Option<Real>) {
        if is_real(s) {
            Some(Real { text: String::from_str(s) })
        } else {
            None
        }
    }
}

/// Outcome of reading the field `f` as a value of type `T`.
pub open spec fn read_outcome<T: FieldValue>(f: Seq<char>, r: Result<T, ReadResult>) -> bool {
    if f.len() == 0 {
        r == Err::<T, ReadResult>(ReadResult::Empty)
    } else if T::spec_accepts(f) {
        r matches Ok(v) && T::spec_denotes(f, v)
    } else {
        r == Err::<T, ReadResult>(ReadResult::InvalidFormat)
    }
}

/// Outcome of reading the optional field `f` as a value of type `T`.
pub open spec fn optional_outcome<T: FieldValue>(
    f: Seq<char>,
    r: Result<Option<T>, ReadResult>,
) -> bool {
    if f.len() == 0 {
        r == Ok::<Option<T>, ReadResult>(None)
    } else if T::spec_accepts(f) {
        r matches Ok(Some(v)) && T::spec_denotes(f, v)
    } else {
        r == Err::<Option<T>, ReadResult>(ReadResult::InvalidFormat)
    }
}

pub struct FieldReader {
    data: String,
    pos: usize,
    sep: char,
}

impl FieldReader {
    pub closed spec fn rest(&self) -> Seq<char> {
        self.data@.subrange(self.pos as int, self.data@.len() as int)
    }

    pub closed spec fn separator(&self) -> char {
        self.sep
    }

    pub closed spec fn wf(&self) -> bool {
        self.pos <= self.data@.len()
    }

    /// The fields not yet consumed.
    pub open spec fn fields(&self) -> Seq<Seq<char>> {
        split_fields(self.rest(), self.separator())
    }

    pub fn new(data_str: String, separator: char) -> (r: FieldReader)
        ensures
            r.wf(),
            r.rest() == data_str@,
            r.separator() == separator,
    {
        let r = FieldReader { data: data_str, pos: 0, sep: separator };
        proof {
            assert(r.rest() =~= r.data@);
        }
        r
    }

    /// Consumes the next field with its separator; `None` when the buffer is exhausted.
    fn next(&mut self) -> (r: Option<String>)
        requires
            old(self).wf(),
        ensures
            final(self).wf(),
            final(self).separator() == old(self).separator(),
            old(self).fields().len() == 0 ==> r is None && final(self).fields() == old(
                self,
            ).fields(),
            old(self).fields().len() > 0 ==> (r matches Some(f) && f@ == old(self).fields()[0]
                && final(self).fields() == old(self).fields().drop_first()),
    {
        let len = self.data.as_str().unicode_len();
        let ghost s = self.rest();
        let ghost sep = self.sep;
        if self.pos >= len {
            proof {
                assert(s.len() == 0);
            }
            return None;
        }
        let mut i = self.pos;
        while i < len && self.data.as_str().get_char(i) != self.sep
            invariant
                self.pos <= i <= len,
                len == self.data@.len(),
                s == self.data@.subrange(self.pos as int, len as int),
                forall|k: int| self.pos <= k < i ==> self.data@[k] != self.sep,
            decreases len - i,
        {
            i = i + 1;
        }
        let f = String::from_str(self.data.as_str().substring_char(self.pos, i));
        proof {
            let n = i - self.pos;
            assert forall|k: int| 0 <= k < n implies s[k] != sep by {
                assert(s[k] == self.data@[self.pos + k]);
            }
            if n < s.len() {
                assert(s[n] == self.data@[i as int]);
            }
            lemma_field_len(s, sep, n as int);
            assert(f@ =~= s.subrange(0, n as int));
        }
        let ghost old_pos = self.pos;
        self.pos = if i < len {
            i + 1
        } else {
            i
        };
        proof {
            assert(self.rest() =~= s.subrange(after_first(s, sep), s.len() as int));
            assert(split_fields(s, sep).drop_first() =~= split_fields(
                s.subrange(after_first(s, sep), s.len() as int),
                sep,
            ));
        }
        Some(f)
    }

    /// Skips the next field; false when the buffer was already exhausted.
    pub fn skip(&mut self) -> (r: bool)
        requires
            old(self).wf(),
        ensures
            final(self).wf(),
            final(self).separator() == old(self).separator(),
            r == (old(self).fields().len() > 0),
            r ==> final(self).fields() == old(self).fields().drop_first(),
            !r ==> final(self).fields() == old(self).fields(),
    {
        match self.next() {
            Some(_) => true,
            None => false,
        }
    }

    /// Reads the next field as a value of type `T`. A missing or textually empty
    /// field is `Empty`; text that does not denote a `T` is `InvalidFormat`.
    pub fn read<T: FieldValue>(&mut self) -> (r: Result<T, ReadResult>)
        requires
            old(self).wf(),
        ensures
            final(self).wf(),
            final(self).separator() == old(self).separator(),
            old(self).fields().len() == 0 ==> r == Err::<T, ReadResult>(ReadResult::Empty)
                && final(self).fields() == old(self).fields(),
            old(self).fields().len() > 0 ==> read_outcome(old(self).fields()[0], r)
                && final(self).fields() == old(self).fields().drop_first(),
    {
        match self.next() {
            None => Err(ReadResult::Empty),
            Some(f) => {
                if f.as_str().unicode_len() == 0 {
                    Err(ReadResult::Empty)
                } else {
                    match T::parse_text(f.as_str()) {
                        Some(v) => Ok(v),
                        None => Err(ReadResult::InvalidFormat),
                    }
                }
            },
        }
    }

    /// Reads the next field as an optional value of type `T`: a missing or
    /// textually empty field is `Ok(None)` rather than an error.
    pub fn read_optional<T: FieldValue>(&mut self) -> (r: Result<Option<T>, ReadResult>)
        requires
            old(self).wf(),
        ensures
            final(self).wf(),
            final(self).separator() == old(self).separator(),
            old(self).fields().len() == 0 ==> r == Ok::<Option<T>, ReadResult>(None)
                && final(self).fields() == old(self).fields(),
            old(self).fields().len() > 0 ==> optional_outcome(old(self).fields()[0], r)
                && final(self).fields() == old(self).fields().drop_first(),
    {
        match self.read::<T>() {
            Ok(v) => Ok(Some(v)),
            Err(e) => match e {
                ReadResult::Empty => Ok(None),
                _ => Err(e),
            },
        }
    }
}

} // verus!
