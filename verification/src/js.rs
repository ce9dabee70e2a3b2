//! JavaScript values, as they arrive.
//!
//! A JavaScript value can be read only on the thread that owns the runtime, and
//! only through the runtime. What is here is what such a read finds: the kind of
//! the value and, for each kind, the plain values this client decides by. A read
//! that failed is carried where its value would have been, so a failure is
//! reported by the rule that came to need the value and by no other.

use vstd::prelude::*;

verus! {

/// What kind of value a JavaScript value is.
#[derive(Clone, Copy, PartialEq, Eq, Structural)]
pub enum Kind {
    Undefined,
    Null,
    Boolean,
    Number,
    Text,
    Symbol,
    Object,
    Function,
    External,
    BigInt,
    Unknown,
}

/// What the runtime's binding calls a kind.
pub open spec fn kind_name(kind: Kind) -> Seq<char> {
    match kind {
        Kind::Undefined => "Undefined"@,
        Kind::Null => "Null"@,
        Kind::Boolean => "Boolean"@,
        Kind::Number => "Number"@,
        Kind::Text => "String"@,
        Kind::Symbol => "Symbol"@,
        Kind::Object => "Object"@,
        Kind::Function => "Function"@,
        Kind::External => "External"@,
        Kind::BigInt => "BigInt"@,
        Kind::Unknown => "Unknown"@,
    }
}

/// The name of a kind, as napi's `ValueType` prints it.
///
/// `Display for napi::ValueType` writes the name of the variant and nothing else.
#[verifier::external_body]
pub(crate) fn spelled(kind: Kind) -> (r: String)
    ensures
        r@ == kind_name(kind),
{
    let kind = match kind {
        Kind::Undefined => napi::ValueType::Undefined,
        Kind::Null => napi::ValueType::Null,
        Kind::Boolean => napi::ValueType::Boolean,
        Kind::Number => napi::ValueType::Number,
        Kind::Text => napi::ValueType::String,
        Kind::Symbol => napi::ValueType::Symbol,
        Kind::Object => napi::ValueType::Object,
        Kind::Function => napi::ValueType::Function,
        Kind::External => napi::ValueType::External,
        Kind::BigInt => napi::ValueType::BigInt,
        Kind::Unknown => napi::ValueType::Unknown,
    };
    kind.to_string()
}

/// A `bigint`: a sign and a magnitude in words of 64 bits, lowest first.
///
/// A magnitude has a first word, which is zero for zero, so the first one is kept
/// apart from the rest of them.
pub struct Big {
    pub negative: bool,
    pub low: u64,
    pub high: Vec<u64>,
}

/// An integer read into 64 signed bits, keeping the low ones.
pub open spec fn wrapped(n: int) -> int {
    let m = n % 0x1_0000_0000_0000_0000;
    if m >= 0x8000_0000_0000_0000 { m - 0x1_0000_0000_0000_0000 } else { m }
}

impl Big {
    /// The lowest word, with the sign.
    pub open spec fn signed(&self) -> int {
        if self.negative { -(self.low as int) } else { self.low as int }
    }

    /// The integer an INT64 keeps of this one, which is its lowest 64 bits.
    pub open spec fn kept(&self) -> int {
        wrapped(self.signed())
    }

    /// Whether this is written in one word and that word with its sign is an
    /// INT64.
    pub open spec fn fits(&self) -> bool {
        self.high@.len() == 0 && i64::MIN <= self.signed() <= i64::MAX
    }

    /// The value as an INT64, and whether that lost nothing.
    ///
    /// `BigInt::get_i64` of napi, which applies the sign to the first word, keeps
    /// what 64 signed bits hold of it, and answers that nothing was lost when there
    /// is one word and the signed word was within range.
    #[verifier::external_body]
    pub(crate) fn get_i64(&self) -> (r: (i64, bool))
        ensures
            r.0 == self.kept(),
            r.1 == self.fits(),
    {
        let mut words = vec![self.low];
        words.extend_from_slice(&self.high);
        napi::bindgen_prelude::BigInt { sign_bit: self.negative, words }.get_i64()
    }

    /// The sign, the lowest word, and whether the two are the whole of it and
    /// not negative.
    ///
    /// `BigInt::get_u64` of napi, which hands back the sign bit and the first word
    /// as they are.
    #[verifier::external_body]
    pub(crate) fn get_u64(&self) -> (r: (bool, u64, bool))
        ensures
            r == (self.negative, self.low, !self.negative && self.high@.len() == 0),
    {
        let mut words = vec![self.low];
        words.extend_from_slice(&self.high);
        napi::bindgen_prelude::BigInt { sign_bit: self.negative, words }.get_u64()
    }
}

/// A JavaScript value.
pub enum Js {
    Undefined,
    Null,
    Boolean(bool),
    /// A number by the bits of the double it is, with what it prints as.
    Number { bits: u64, shown: String },
    Text(String),
    Symbol,
    BigInt(Big),
    Object(Thing),
    Function,
    External,
    Unknown,
    /// A value the runtime would not say the kind of, and why.
    Unread(String),
}

/// What an object turned out to be, as far as anything here asks.
pub struct Thing {
    /// The name of the class that made it, when it has one.
    pub maker: Option<String>,
    /// Which of this client's own temporal classes it is an instance of.
    pub class: Result<Option<Class>, String>,
    /// The elements, when it is an array.
    pub items: Option<Vec<Js>>,
    /// Whether it is a typed array, and the bytes of it when it is one of bytes.
    pub typed: Option<Option<Vec<u8>>>,
    /// Its `Symbol.toStringTag`, when that is a string.
    pub tag: Result<Option<String>, String>,
    /// The fields a `Temporal` value has.
    pub fields: Fields,
    /// Its own enumerable properties, in order.
    pub keys: Result<Vec<(String, Js)>, String>,
}

/// An instance of one of the four temporal classes, by what its fields read as.
pub enum Class {
    Date(Result<i32, String>),
    Time { nanos: Result<Big, String>, offset: Result<Option<i32>, String> },
    Timestamp { nanos: Result<Big, String>, offset: Result<Option<i32>, String> },
    Duration { kind: Result<String, String>, months: Result<Big, String>, nanos: Result<Big, String> },
}

/// What a `Temporal` value calls its calendar, by the ways there are of asking.
pub struct Calendar {
    /// `calendarId`, when it is a string.
    pub id: Result<Option<String>, String>,
    /// `calendar`, which was a string for a while and an object before that.
    pub named: Result<Named, String>,
}

/// What a `calendar` property holds.
pub enum Named {
    Text(String),
    /// An object, and its `id` when that is a string.
    Object(Result<Option<String>, String>),
    Other,
}

/// The fields of a `Temporal` value, whichever of them it has.
pub struct Fields {
    pub calendar: Calendar,
    /// The days from the epoch its year, month and day count.
    pub day: Result<i64, String>,
    /// The nanoseconds from midnight its hour and the fields under it count.
    pub clock: Result<i64, String>,
    /// `epochNanoseconds`.
    pub since: Result<Big, String>,
    /// `offsetNanoseconds`.
    pub offset: Result<i64, String>,
    /// `offset`, which is the same thing written out.
    pub written: Result<String, String>,
    /// The months and the nanoseconds its fields count, for a duration.
    pub span: Result<(i64, i64), String>,
}

impl Js {
    /// The kind of the value, for every value but one that could not be read.
    pub open spec fn spec_kind(&self) -> Kind {
        match self {
            Js::Undefined => Kind::Undefined,
            Js::Null => Kind::Null,
            Js::Boolean(_) => Kind::Boolean,
            Js::Number { .. } => Kind::Number,
            Js::Text(_) => Kind::Text,
            Js::Symbol => Kind::Symbol,
            Js::BigInt(_) => Kind::BigInt,
            Js::Object(_) => Kind::Object,
            Js::Function => Kind::Function,
            Js::External => Kind::External,
            Js::Unknown | Js::Unread(_) => Kind::Unknown,
        }
    }

    /// The kind of the value.
    pub fn kind(&self) -> (r: Kind)
        ensures
            r == self.spec_kind(),
    {
        match self {
            Js::Undefined => Kind::Undefined,
            Js::Null => Kind::Null,
            Js::Boolean(_) => Kind::Boolean,
            Js::Number { .. } => Kind::Number,
            Js::Text(_) => Kind::Text,
            Js::Symbol => Kind::Symbol,
            Js::BigInt(_) => Kind::BigInt,
            Js::Object(_) => Kind::Object,
            Js::Function => Kind::Function,
            Js::External => Kind::External,
            Js::Unknown | Js::Unread(_) => Kind::Unknown,
        }
    }
}

/// Why a value could not be taken.
pub enum Fault {
    /// A mistake in the calling program, in words for the person who wrote it.
    Refused(String),
    /// The runtime would not hand the value over, which is nobody's mistake here.
    Boundary(String),
}

/// What a [`Fault`] says, and which of the two it is.
pub enum Trouble {
    Refused(Seq<char>),
    Boundary(Seq<char>),
}

impl View for Fault {
    type V = Trouble;

    open spec fn view(&self) -> Trouble {
        match self {
            Fault::Refused(words) => Trouble::Refused(words@),
            Fault::Boundary(words) => Trouble::Boundary(words@),
        }
    }
}

impl Trouble {
    /// The words, whichever of the two it is.
    pub open spec fn words(&self) -> Seq<char> {
        match self {
            Trouble::Refused(words) => *words,
            Trouble::Boundary(words) => *words,
        }
    }
}

impl Fault {
    /// The words, whichever of the two it is.
    pub fn reason(self) -> (r: String)
        ensures
            r@ == self@.words(),
    {
        match self {
            Fault::Refused(words) => words,
            Fault::Boundary(words) => words,
        }
    }
}

/// A result whose failure is a sentence, by what the sentence says.
pub open spec fn said<T>(r: Result<T, String>) -> Result<T, Seq<char>> {
    match r {
        Ok(t) => Ok(t),
        Err(words) => Err(words@),
    }
}

/// A result whose failure is a [`Fault`], by what the fault says.
pub open spec fn told<T>(r: Result<T, Fault>) -> Result<T, Trouble> {
    match r {
        Ok(t) => Ok(t),
        Err(fault) => Err(fault@),
    }
}

/// An option of a string, by the characters.
pub open spec fn seen(s: Option<String>) -> Option<Seq<char>> {
    match s {
        Some(s) => Some(s@),
        None => None,
    }
}

/// A string or a sentence, by what each of them says.
pub open spec fn heard(r: Result<String, String>) -> Result<Seq<char>, Seq<char>> {
    match r {
        Ok(s) => Ok(s@),
        Err(words) => Err(words@),
    }
}

/// What an INT64 keeps of a `bigint` is within 64 signed bits and a whole number of times 2^64 from
/// it, and is the integer itself exactly when that is within them.
pub proof fn law_the_low_bits_are_kept(n: int)
    ensures
        -0x8000_0000_0000_0000 <= wrapped(n) < 0x8000_0000_0000_0000,
        (wrapped(n) - n) % 0x1_0000_0000_0000_0000 == 0,
        wrapped(n) == n <==> -0x8000_0000_0000_0000 <= n < 0x8000_0000_0000_0000,
{
}

} // verus!
