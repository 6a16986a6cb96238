//! The values a program handles and the errors a builtin answers with.

use vstd::prelude::*;

verus! {

/// A value, as far as the builtins have to tell values apart.
///
/// Text, objects and accessor pairs live in a realm, and a value names them by where they are in it.
/// A number is its bit pattern together with the text it converts to, because turning a double into
/// the shortest text that reads back as the same double is the number formatter's business.
#[derive(Clone, Copy, Debug, PartialEq, Eq, Structural)]
pub enum Value {
    /// `undefined`.
    Undefined,
    /// `null`.
    Null,
    /// `true` or `false`.
    Bool(bool),
    /// A number.
    Number {
        /// The bit pattern of the double.
        bits: u64,
        /// Which text of the realm it converts to.
        text: usize,
    },
    /// A string, by which text of the realm it is.
    Text(usize),
    /// An object or a function, by which object of the realm it is.
    Object(usize),
    /// A getter and a setter. Never handed to a program: it stands where a property keeps its value.
    Pair(usize),
}

/// The bits of a double without the sign.
pub open spec fn magnitude(bits: u64) -> u64 {
    bits % 0x8000_0000_0000_0000
}

/// Whether a bit pattern is one of the doubles that are not a number.
pub open spec fn is_nan(bits: u64) -> bool {
    magnitude(bits) > 0x7FF0_0000_0000_0000
}

/// Whether a bit pattern is a double with a finite value.
pub open spec fn is_finite(bits: u64) -> bool {
    magnitude(bits) < 0x7FF0_0000_0000_0000
}

/// Whether a bit pattern is one of the two zeros.
pub open spec fn is_zero(bits: u64) -> bool {
    magnitude(bits) == 0
}

/// Whether two bit patterns are the same value: every one that is not a number is, and the two zeros
/// are not.
pub open spec fn same_number(left: u64, right: u64) -> bool {
    left == right || (is_nan(left) && is_nan(right))
}

impl Value {
    /// Whether the value is `undefined`.
    pub fn is_undefined(self) -> (answer: bool)
        ensures
            answer == (self == Value::Undefined),
    {
        match self {
            Value::Undefined => true,
            _ => false,
        }
    }

    /// Whether the value is `null`.
    pub fn is_null(self) -> (answer: bool)
        ensures
            answer == (self == Value::Null),
    {
        match self {
            Value::Null => true,
            _ => false,
        }
    }

    /// Whether the value is `undefined` or `null`, which are the two that cannot be converted to an
    /// object.
    pub fn is_nullish(self) -> (answer: bool)
        ensures
            answer == (self == Value::Undefined || self == Value::Null),
    {
        match self {
            Value::Undefined | Value::Null => true,
            _ => false,
        }
    }
}

/// What a property is allowed to do, and which kind it is.
#[derive(Clone, Copy, Debug, PartialEq, Eq, Structural)]
pub struct Attributes {
    /// Whether an assignment may change the value. Never set on an accessor.
    pub writable: bool,
    /// Whether walking the object shows the property.
    pub enumerable: bool,
    /// Whether the property may be redefined or removed.
    pub configurable: bool,
    /// Whether the property is a getter and a setter rather than a value.
    pub accessor: bool,
}

impl Attributes {
    /// The attributes of a data property.
    pub open spec fn data(writable: bool, enumerable: bool, configurable: bool) -> Attributes {
        Attributes { writable, enumerable, configurable, accessor: false }
    }

    /// The attributes of an accessor.
    pub open spec fn pair(enumerable: bool, configurable: bool) -> Attributes {
        Attributes { writable: false, enumerable, configurable, accessor: true }
    }

    /// The attributes of a data property.
    pub fn new(writable: bool, enumerable: bool, configurable: bool) -> (attributes: Attributes)
        ensures
            attributes == Attributes::data(writable, enumerable, configurable),
    {
        Attributes { writable, enumerable, configurable, accessor: false }
    }

    /// The attributes of an accessor, which has no value to be writable.
    pub fn accessor(enumerable: bool, configurable: bool) -> (attributes: Attributes)
        ensures
            attributes == Attributes::pair(enumerable, configurable),
    {
        Attributes { writable: false, enumerable, configurable, accessor: true }
    }

    /// What the standard library puts on its own methods: hidden, and replaceable.
    pub fn builtin() -> (attributes: Attributes)
        ensures
            attributes == Attributes::data(true, false, true),
    {
        Attributes::new(true, false, true)
    }

    /// Nothing can rewrite it, show it or remove it.
    pub fn none() -> (attributes: Attributes)
        ensures
            attributes == Attributes::data(false, false, false),
    {
        Attributes::new(false, false, false)
    }

    /// What an assignment makes.
    pub fn plain() -> (attributes: Attributes)
        ensures
            attributes == Attributes::data(true, true, true),
    {
        Attributes::new(true, true, true)
    }
}

/// Which of the seven error constructors.
#[derive(Clone, Copy, Debug, PartialEq, Eq, Structural)]
pub enum ErrorKind {
    /// `Error`.
    Error,
    /// `TypeError`.
    Type,
    /// `RangeError`.
    Range,
    /// `ReferenceError`.
    Reference,
    /// `SyntaxError`.
    Syntax,
    /// `EvalError`.
    Eval,
    /// `URIError`.
    Uri,
}

impl ErrorKind {
    /// The name of the constructor.
    pub open spec fn label(self) -> Seq<char> {
        match self {
            ErrorKind::Error => "Error"@,
            ErrorKind::Type => "TypeError"@,
            ErrorKind::Range => "RangeError"@,
            ErrorKind::Reference => "ReferenceError"@,
            ErrorKind::Syntax => "SyntaxError"@,
            ErrorKind::Eval => "EvalError"@,
            ErrorKind::Uri => "URIError"@,
        }
    }

    /// Where the kind stands in a table of them.
    pub open spec fn position(self) -> int {
        match self {
            ErrorKind::Error => 0,
            ErrorKind::Type => 1,
            ErrorKind::Range => 2,
            ErrorKind::Reference => 3,
            ErrorKind::Syntax => 4,
            ErrorKind::Eval => 5,
            ErrorKind::Uri => 6,
        }
    }

    /// The name of the constructor.
    pub fn name(self) -> (name: &'static str)
        ensures
            name@ == self.label(),
    {
        match self {
            ErrorKind::Error => "Error",
            ErrorKind::Type => "TypeError",
            ErrorKind::Range => "RangeError",
            ErrorKind::Reference => "ReferenceError",
            ErrorKind::Syntax => "SyntaxError",
            ErrorKind::Eval => "EvalError",
            ErrorKind::Uri => "URIError",
        }
    }

    pub(crate) fn index(self) -> (index: usize)
        ensures
            index == self.position(),
            index < 7,
    {
        match self {
            ErrorKind::Error => 0,
            ErrorKind::Type => 1,
            ErrorKind::Range => 2,
            ErrorKind::Reference => 3,
            ErrorKind::Syntax => 4,
            ErrorKind::Eval => 5,
            ErrorKind::Uri => 6,
        }
    }
}

/// The functions written in Rust that a program can reach.
#[derive(Clone, Copy, Debug, PartialEq, Eq, Structural)]
pub enum Native {
    /// `Object(value)`.
    Object,
    /// `Object.create`.
    ObjectCreate,
    /// `Object.getPrototypeOf`.
    ObjectGetPrototypeOf,
    /// `Object.defineProperty`.
    ObjectDefineProperty,
    /// `Object.defineProperties`.
    ObjectDefineProperties,
    /// `Object.getOwnPropertyDescriptor`.
    ObjectDescribe,
    /// `Object.prototype.hasOwnProperty`.
    HasOwnProperty,
    /// `Object.prototype.isPrototypeOf`.
    IsPrototypeOf,
    /// `Object.prototype.propertyIsEnumerable`.
    PropertyIsEnumerable,
    /// `Object.prototype.toString`.
    ObjectToString,
    /// `Object.prototype.valueOf`.
    ObjectValueOf,
    /// `Function(body)`.
    Function,
    /// One of the seven error constructors.
    Error(ErrorKind),
    /// `Error.prototype.toString`.
    ErrorToString,
    /// `String(value)`.
    Text,
    /// `JSON.stringify`.
    JsonStringify,
    /// `JSON.parse`.
    JsonParse,
    /// One of the methods of `console`, by the stream it writes to.
    Console(Stream),
    /// `performance.now`.
    PerformanceNow,
}

/// Where a line goes.
#[derive(Clone, Copy, Debug, PartialEq, Eq, Structural)]
pub enum Stream {
    /// Standard output.
    Out,
    /// Standard error.
    Error,
}

/// What a builtin answers with when it cannot answer with a value.
#[derive(Clone, Debug)]
pub enum RuntimeError {
    /// A `TypeError` with this message.
    Type(String),
    /// A `RangeError` with this message.
    Range(String),
    /// A `ReferenceError` with this message.
    Reference(String),
    /// A value a program threw, already rendered.
    Thrown(String),
    /// Something this build does not do, named. No program can catch it.
    Unsupported(String),
    /// An instruction this build does not run, named. No program can catch it.
    NotImplemented(String),
    /// The heap is full.
    OutOfMemory,
    /// Something outside asked the program to stop.
    Interrupted,
}

/// A runtime error with its message as a sequence of characters.
pub enum ErrorView {
    /// A `TypeError`.
    Type(Seq<char>),
    /// A `RangeError`.
    Range(Seq<char>),
    /// A `ReferenceError`.
    Reference(Seq<char>),
    /// A value a program threw.
    Thrown(Seq<char>),
    /// Something this build does not do.
    Unsupported(Seq<char>),
    /// An instruction this build does not run.
    NotImplemented(Seq<char>),
    /// The heap is full.
    OutOfMemory,
    /// Something outside asked the program to stop.
    Interrupted,
}

impl View for RuntimeError {
    type V = ErrorView;

    open spec fn view(&self) -> ErrorView {
        match self {
            RuntimeError::Type(message) => ErrorView::Type(message@),
            RuntimeError::Range(message) => ErrorView::Range(message@),
            RuntimeError::Reference(message) => ErrorView::Reference(message@),
            RuntimeError::Thrown(message) => ErrorView::Thrown(message@),
            RuntimeError::Unsupported(message) => ErrorView::Unsupported(message@),
            RuntimeError::NotImplemented(message) => ErrorView::NotImplemented(message@),
            RuntimeError::OutOfMemory => ErrorView::OutOfMemory,
            RuntimeError::Interrupted => ErrorView::Interrupted,
        }
    }
}

impl ErrorView {
    /// What the error says: an error the engine raised says what Node says word for word.
    pub open spec fn text(self) -> Seq<char> {
        match self {
            ErrorView::Type(message) => "TypeError: "@ + message,
            ErrorView::Range(message) => "RangeError: "@ + message,
            ErrorView::Reference(message) => "ReferenceError: "@ + message,
            ErrorView::Thrown(message) => message,
            ErrorView::Unsupported(message) => message,
            ErrorView::NotImplemented(message) => message,
            ErrorView::OutOfMemory => "out of memory"@,
            ErrorView::Interrupted => "interrupted"@,
        }
    }
}

impl RuntimeError {
    /// What the error says.
    pub fn to_string(&self) -> (out: String)
        ensures
            out@ == self@.text(),
    {
        let mut out = String::new();
        match self {
            RuntimeError::Type(message) => {
                out.append("TypeError: ");
                out.append(message.as_str());
            },
            RuntimeError::Range(message) => {
                out.append("RangeError: ");
                out.append(message.as_str());
            },
            RuntimeError::Reference(message) => {
                out.append("ReferenceError: ");
                out.append(message.as_str());
            },
            RuntimeError::Thrown(message) => out.append(message.as_str()),
            RuntimeError::Unsupported(message) => out.append(message.as_str()),
            RuntimeError::NotImplemented(message) => out.append(message.as_str()),
            RuntimeError::OutOfMemory => out.append("out of memory"),
            RuntimeError::Interrupted => out.append("interrupted"),
        }
        assert(out@ =~= self@.text());
        out
    }

    pub(crate) fn of_type(message: &str) -> (error: RuntimeError)
        ensures
            error@ == ErrorView::Type(message@),
    {
        RuntimeError::Type(message.to_owned())
    }

    pub(crate) fn unsupported(message: &str) -> (error: RuntimeError)
        ensures
            error@ == ErrorView::Unsupported(message@),
    {
        RuntimeError::Unsupported(message.to_owned())
    }
}

/// What an error says: the kind of error the engine raised in front of its message, and the message
/// alone where it is not the engine's error.
pub proof fn law_what_a_runtime_error_says(message: Seq<char>)
    ensures
        ErrorView::Type(message).text() == "TypeError: "@ + message,
        ErrorView::Range(message).text() == "RangeError: "@ + message,
        ErrorView::Reference(message).text() == "ReferenceError: "@ + message,
        ErrorView::Thrown(message).text() == message,
        ErrorView::Unsupported(message).text() == message,
        ErrorView::NotImplemented(message).text() == message,
        ErrorView::OutOfMemory.text() == "out of memory"@,
        ErrorView::Interrupted.text() == "interrupted"@,
{
}

/// What each error constructor is called.
pub proof fn law_what_an_error_constructor_is_called(kind: ErrorKind)
    ensures
        kind.label() == match kind {
            ErrorKind::Error => "Error"@,
            ErrorKind::Type => "TypeError"@,
            ErrorKind::Range => "RangeError"@,
            ErrorKind::Reference => "ReferenceError"@,
            ErrorKind::Syntax => "SyntaxError"@,
            ErrorKind::Eval => "EvalError"@,
            ErrorKind::Uri => "URIError"@,
        },
        forall|other: ErrorKind| #[trigger] other.position() == kind.position() ==> other == kind,
        0 <= kind.position() < 7,
{
}

} // verus!
