//! The object model the builtins read and change.
//!
//! A realm holds objects, each a list of properties with a prototype above it, the text and the
//! accessor pairs that values name, and the bindings of the global scope. A function is an object
//! that can be called.
//!
//! The properties of an object are kept in the order walking it shows them: the keys that are array
//! indices first and in numeric order, then every other key in the order it was added.

use vstd::prelude::*;

use crate::builtins::value::{
    is_nan, is_zero, same_number, Attributes, ErrorKind, ErrorView, Native, RuntimeError,
    Stream, Value,
};
use crate::text::{
    decimal, digits_value, is_decimal, lemma_decimal_reads_back, lemma_decimal_text_is_its_number,
    parse_decimal, same_text,
};

verus! {

/// One property of an object.
#[derive(Debug)]
pub struct Property {
    /// The name of the property.
    pub key: String,
    /// The value, or the accessor pair.
    pub value: Value,
    /// What the property may do.
    pub attributes: Attributes,
}

/// A property with its name as a sequence of characters.
pub struct PropertyView {
    /// The name of the property.
    pub key: Seq<char>,
    /// The value, or the accessor pair.
    pub value: Value,
    /// What the property may do.
    pub attributes: Attributes,
}

impl View for Property {
    type V = PropertyView;

    open spec fn view(&self) -> PropertyView {
        PropertyView { key: self.key@, value: self.value, attributes: self.attributes }
    }
}

/// What makes an object a function.
#[derive(Debug)]
pub struct FunctionData {
    /// The name the function was written under.
    pub name: String,
    /// The Rust behind it, for a function that is not written in JavaScript.
    pub native: Option<Native>,
    /// Whether `new` may be put in front of it.
    pub constructs: bool,
}

/// What makes an object a function, with its name as a sequence of characters.
pub struct FunctionView {
    /// The name the function was written under.
    pub name: Seq<char>,
    /// The Rust behind it, for a function that is not written in JavaScript.
    pub native: Option<Native>,
    /// Whether `new` may be put in front of it.
    pub constructs: bool,
}

impl View for FunctionData {
    type V = FunctionView;

    open spec fn view(&self) -> FunctionView {
        FunctionView { name: self.name@, native: self.native, constructs: self.constructs }
    }
}

/// An object or a function.
#[derive(Debug)]
pub struct ObjectData {
    /// The object this one inherits from.
    pub prototype: Option<usize>,
    /// The properties, in the order walking the object shows them.
    pub properties: Vec<Property>,
    /// What makes it a function, if it is one.
    pub function: Option<FunctionData>,
    /// How the console shows it, which whoever owns the console keeps up to date.
    pub inspected: String,
}

/// An object or a function, as mathematical values.
pub struct ObjectView {
    /// The object this one inherits from.
    pub prototype: Option<usize>,
    /// The properties, in the order walking the object shows them.
    pub properties: Seq<PropertyView>,
    /// What makes it a function, if it is one.
    pub function: Option<FunctionView>,
    /// How the console shows it.
    pub inspected: Seq<char>,
}

impl View for ObjectData {
    type V = ObjectView;

    open spec fn view(&self) -> ObjectView {
        ObjectView {
            prototype: self.prototype,
            properties: Seq::new(self.properties@.len(), |i: int| self.properties@[i]@),
            function: match self.function {
                Some(function) => Some(function@),
                None => None,
            },
            inspected: self.inspected@,
        }
    }
}

/// A realm, as mathematical values.
pub struct RealmView {
    /// The text that values name.
    pub texts: Seq<Seq<char>>,
    /// The objects that values name.
    pub objects: Seq<ObjectView>,
    /// The accessor pairs that properties name: a getter and a setter, either of which may be absent.
    pub pairs: Seq<(Option<Value>, Option<Value>)>,
    /// The bindings of the global scope.
    pub globals: Seq<(Seq<char>, Value)>,
    /// The prototypes the engine builds its own errors from.
    pub error_prototypes: Seq<Option<usize>>,
    /// Whether the call that is running was made with `new`.
    pub constructing: bool,
    /// The latest reading of the clock, in milliseconds.
    pub clock: Value,
    /// The lines written so far, and where each went.
    pub output: Seq<(Stream, Seq<char>)>,
}

/// The largest number that is an array index.
pub const MAX_INDEX: u64 = 4294967294;

/// The array index a key is, if it is the canonical spelling of one.
pub open spec fn index_of_key(key: Seq<char>) -> Option<nat> {
    if is_decimal(key) && digits_value(key) <= MAX_INDEX {
        Some(digits_value(key))
    } else {
        None
    }
}

/// Whether one key is shown before another that is added after it.
pub open spec fn goes_before(key: Seq<char>, added: Seq<char>) -> bool {
    match (index_of_key(key), index_of_key(added)) {
        (Some(left), Some(right)) => left < right,
        (None, Some(_)) => false,
        _ => true,
    }
}

/// Where a key is in a list of properties, from `from` on.
pub open spec fn find_from(properties: Seq<PropertyView>, key: Seq<char>, from: int) -> Option<int>
    decreases properties.len() - from,
{
    if from < 0 || from >= properties.len() {
        None
    } else if properties[from].key == key {
        Some(from)
    } else {
        find_from(properties, key, from + 1)
    }
}

/// Where a key is in a list of properties.
pub open spec fn find(properties: Seq<PropertyView>, key: Seq<char>) -> Option<int> {
    find_from(properties, key, 0)
}

/// Where a key that is not in a list of properties goes, from `from` on.
pub open spec fn place_from(properties: Seq<PropertyView>, key: Seq<char>, from: int) -> int
    decreases properties.len() - from,
{
    if from < 0 || from >= properties.len() || !goes_before(properties[from].key, key) {
        from
    } else {
        place_from(properties, key, from + 1)
    }
}

/// A list of properties with one defined in it: in the place it has, or in the place it belongs.
pub open spec fn with_property(properties: Seq<PropertyView>, added: PropertyView) -> Seq<
    PropertyView,
> {
    match find(properties, added.key) {
        Some(index) => properties.update(index, added),
        None => properties.insert(place_from(properties, added.key, 0), added),
    }
}

/// Whether no key is in a list twice and the list is in the order walking shows.
pub open spec fn well_listed(properties: Seq<PropertyView>) -> bool {
    &&& forall|i: int, j: int|
        0 <= i < j < properties.len() ==> (#[trigger] properties[i]).key != (
        #[trigger] properties[j]).key
    &&& forall|i: int, j: int|
        0 <= i < j < properties.len() ==> goes_before(
            (#[trigger] properties[i]).key,
            (#[trigger] properties[j]).key,
        )
}

/// The properties of a list that walking shows.
pub open spec fn shown(properties: Seq<PropertyView>) -> Seq<PropertyView>
    decreases properties.len(),
{
    if properties.len() == 0 {
        Seq::empty()
    } else if properties.last().attributes.enumerable {
        shown(properties.drop_last()).push(properties.last())
    } else {
        shown(properties.drop_last())
    }
}

impl RealmView {
    /// Whether a value is one a program of this realm can hold.
    pub open spec fn knows(self, value: Value) -> bool {
        match value {
            Value::Number { text, .. } => text < self.texts.len(),
            Value::Text(text) => text < self.texts.len(),
            Value::Object(object) => object < self.objects.len(),
            Value::Pair(_) => false,
            _ => true,
        }
    }

    /// Whether every value of a list is one a program of this realm can hold.
    pub open spec fn knows_all(self, values: Seq<Value>) -> bool {
        forall|i: int| 0 <= i < values.len() ==> self.knows(#[trigger] values[i])
    }

    /// Whether a value is something that can be called.
    pub open spec fn calls(self, value: Value) -> bool {
        match value {
            Value::Object(object) => object < self.objects.len()
                && self.objects[object as int].function is Some,
            _ => false,
        }
    }

    /// Whether a value is an object that is not a function.
    pub open spec fn is_plain_object(self, value: Value) -> bool {
        match value {
            Value::Object(object) => object < self.objects.len()
                && self.objects[object as int].function is None,
            _ => false,
        }
    }

    /// Whether what a property holds is what its attributes say it holds.
    pub open spec fn slot_fits(self, property: PropertyView) -> bool {
        if property.attributes.accessor {
            !property.attributes.writable && (property.value matches Value::Pair(pair) && pair
                < self.pairs.len())
        } else {
            self.knows(property.value)
        }
    }

    /// Whether an object inherits from an older one and its properties hold what they should.
    pub open spec fn object_fits(self, index: int) -> bool {
        &&& self.objects[index].prototype matches Some(above) ==> above < index
        &&& well_listed(self.objects[index].properties)
        &&& forall|i: int|
            0 <= i < self.objects[index].properties.len() ==> self.slot_fits(
                #[trigger] self.objects[index].properties[i],
            )
    }

    /// Whether the halves of an accessor pair are values of the realm.
    pub open spec fn pair_fits(self, pair: (Option<Value>, Option<Value>)) -> bool {
        &&& pair.0 matches Some(getter) ==> self.knows(getter)
        &&& pair.1 matches Some(setter) ==> self.knows(setter)
    }

    /// Whether everything in the realm names something that is there.
    pub open spec fn fits(self) -> bool {
        &&& self.texts.len() <= usize::MAX
        &&& self.pairs.len() <= usize::MAX
        &&& 2 <= self.objects.len() <= usize::MAX
        &&& self.objects[0].function is None
        &&& self.objects[1].function is None
        &&& forall|i: int| 0 <= i < self.objects.len() ==> #[trigger] self.object_fits(i)
        &&& forall|i: int| 0 <= i < self.pairs.len() ==> self.pair_fits(#[trigger] self.pairs[i])
        &&& forall|i: int| 0 <= i < self.globals.len() ==> self.knows((#[trigger] self.globals[i]).1)
        &&& self.error_prototypes.len() == 7
        &&& forall|i: int|
            0 <= i < 7 ==> ((#[trigger] self.error_prototypes[i]) matches Some(object) ==> object
                < self.objects.len() && self.objects[object as int].function is None)
        &&& self.knows(self.clock)
    }

    /// Whether everything one realm has is in another in the same place, where objects may have
    /// changed but not into something else.
    pub open spec fn grows_into(self, later: RealmView) -> bool {
        &&& self.texts.len() <= later.texts.len()
        &&& forall|i: int| 0 <= i < self.texts.len() ==> #[trigger] later.texts[i] == self.texts[i]
        &&& self.objects.len() <= later.objects.len()
        &&& forall|i: int|
            0 <= i < self.objects.len() ==> (#[trigger] later.objects[i]).function
                == self.objects[i].function && later.objects[i].prototype
                == self.objects[i].prototype
        &&& self.pairs.len() <= later.pairs.len()
        &&& forall|i: int| 0 <= i < self.pairs.len() ==> #[trigger] later.pairs[i] == self.pairs[i]
    }

    /// The realm with one more piece of text.
    pub open spec fn with_text(self, text: Seq<char>) -> RealmView {
        RealmView { texts: self.texts.push(text), ..self }
    }

    /// The realm with one more object.
    pub open spec fn with_object(self, object: ObjectView) -> RealmView {
        RealmView { objects: self.objects.push(object), ..self }
    }

    /// The realm with one more accessor pair.
    pub open spec fn with_pair(self, getter: Option<Value>, setter: Option<Value>) -> RealmView {
        RealmView { pairs: self.pairs.push((getter, setter)), ..self }
    }

    /// The realm with a property of an object defined.
    pub open spec fn with_own(
        self,
        object: int,
        key: Seq<char>,
        value: Value,
        attributes: Attributes,
    ) -> RealmView {
        let before = self.objects[object];
        let after = ObjectView {
            properties: with_property(before.properties, PropertyView { key, value, attributes }),
            ..before
        };
        RealmView { objects: self.objects.update(object, after), ..self }
    }

    /// The realm with a global bound, in front of any binding of the same name.
    pub open spec fn with_global(self, name: Seq<char>, value: Value) -> RealmView {
        RealmView { globals: self.globals.push((name, value)), ..self }
    }

    /// The latest binding of a name among the first `count`.
    pub open spec fn global_among(self, name: Seq<char>, count: int) -> Option<Value>
        decreases count,
    {
        if count <= 0 {
            None
        } else if self.globals[count - 1].0 == name {
            Some(self.globals[count - 1].1)
        } else {
            self.global_among(name, count - 1)
        }
    }

    /// What a name is bound to in the global scope.
    pub open spec fn bound(self, name: Seq<char>) -> Option<Value> {
        self.global_among(name, self.globals.len() as int)
    }

    /// The property an object has of its own under a key.
    pub open spec fn own(self, value: Value, key: Seq<char>) -> Option<(Value, Attributes)> {
        match value {
            Value::Object(object) => {
                let properties = self.objects[object as int].properties;
                match find(properties, key) {
                    Some(index) => Some((properties[index].value, properties[index].attributes)),
                    None => None,
                }
            },
            _ => None,
        }
    }

    /// The property found under a key on an object or above it.
    pub open spec fn inherited(self, object: int, key: Seq<char>) -> Option<(Value, Attributes)>
        decreases object,
    {
        match self.own(Value::Object(object as usize), key) {
            Some(found) => Some(found),
            None => match self.objects[object].prototype {
                Some(above) if above < object => self.inherited(above as int, key),
                _ => None,
            },
        }
    }

    /// What reading a property gives, for a reader that cannot call a getter.
    pub open spec fn looked_up(self, value: Value, key: Seq<char>) -> Result<
        Option<Value>,
        ErrorView,
    > {
        match value {
            Value::Object(object) => match self.inherited(object as int, key) {
                Some((_, attributes)) if attributes.accessor => Err(met_an_accessor(key)),
                Some((found, _)) => Ok(Some(found)),
                None => Ok(None),
            },
            _ => Ok(None),
        }
    }

    /// What is above a value: the object it inherits from or `null`, and nothing for a value that is
    /// not an object.
    pub open spec fn above(self, value: Value) -> Option<Value> {
        match value {
            Value::Object(object) => match self.objects[object as int].prototype {
                Some(above) => Some(Value::Object(above)),
                None => Some(Value::Null),
            },
            _ => None,
        }
    }

    /// Whether one object is anywhere above another.
    pub open spec fn is_above(self, upper: Value, object: int) -> bool
        decreases object,
    {
        match self.objects[object].prototype {
            Some(above) if above < object => Value::Object(above) == upper || self.is_above(
                upper,
                above as int,
            ),
            _ => false,
        }
    }

    /// Whether a value is `Object.prototype` or has it somewhere above.
    pub open spec fn below_the_top(self, value: Value) -> bool {
        match value {
            Value::Object(object) => object == 0 || self.is_above(Value::Object(0), object as int),
            _ => false,
        }
    }

    /// Whether two values are the same value.
    pub open spec fn same(self, left: Value, right: Value) -> bool {
        match (left, right) {
            (Value::Number { bits: a, .. }, Value::Number { bits: b, .. }) => same_number(a, b),
            (Value::Text(a), Value::Text(b)) => self.texts[a as int] == self.texts[b as int],
            _ => left == right,
        }
    }

    /// Whether a value counts as true.
    pub open spec fn truthy(self, value: Value) -> bool {
        match value {
            Value::Undefined | Value::Null => false,
            Value::Bool(b) => b,
            Value::Number { bits, .. } => !is_zero(bits) && !is_nan(bits),
            Value::Text(text) => self.texts[text as int].len() > 0,
            _ => true,
        }
    }

    /// What a number converts to: either zero is `0`, what is not a number and the infinities are
    /// their names, and any other number is the text that came with it.
    pub open spec fn number_text(self, bits: u64, text: usize) -> Seq<char> {
        if is_zero(bits) {
            "0"@
        } else if is_nan(bits) {
            "NaN"@
        } else if bits == 0x7FF0_0000_0000_0000 {
            "Infinity"@
        } else if bits == 0xFFF0_0000_0000_0000 {
            "-Infinity"@
        } else {
            self.texts[text as int]
        }
    }

    /// How the console shows a value at the top level.
    pub open spec fn display_text(self, value: Value) -> Seq<char> {
        match value {
            Value::Undefined => "undefined"@,
            Value::Null => "null"@,
            Value::Bool(b) => crate::text::truth(b),
            Value::Number { bits, text } => if bits == 0x8000_0000_0000_0000 {
                "-0"@
            } else {
                self.number_text(bits, text)
            },
            Value::Text(text) => self.texts[text as int],
            Value::Object(object) => self.objects[object as int].inspected,
            Value::Pair(_) => Seq::empty(),
        }
    }

    /// The properties of a value that walking it shows, if it is an object.
    pub open spec fn walked(self, value: Value) -> Option<Seq<PropertyView>> {
        match value {
            Value::Object(object) => Some(shown(self.objects[object as int].properties)),
            _ => None,
        }
    }

    /// The realm with several properties of an object defined, one after the other.
    pub open spec fn with_entries(
        self,
        object: int,
        entries: Seq<(Seq<char>, Value)>,
        attributes: Attributes,
    ) -> RealmView
        decreases entries.len(),
    {
        if entries.len() == 0 {
            self
        } else {
            self.with_entries(object, entries.drop_last(), attributes).with_own(
                object,
                entries.last().0,
                entries.last().1,
                attributes,
            )
        }
    }

    /// The object a function written in Rust is.
    pub open spec fn native_object(name: Seq<char>, native: Native, constructs: bool) -> ObjectView {
        ObjectView {
            prototype: Some(1usize),
            properties: Seq::empty(),
            function: Some(FunctionView { name, native: Some(native), constructs }),
            inspected: "[Function: "@ + name + "]"@,
        }
    }

    /// A new object with nothing on it.
    pub open spec fn empty_object(prototype: Option<usize>) -> ObjectView {
        ObjectView {
            prototype,
            properties: Seq::empty(),
            function: None,
            inspected: "{}"@,
        }
    }
}

/// The refusal a builtin answers with when reading a property would mean calling something.
pub open spec fn met_an_accessor(key: Seq<char>) -> ErrorView {
    ErrorView::Unsupported(
        "reading '"@ + key
            + "' here means calling a getter, which a function written in Rust cannot do yet"@,
    )
}

/// The refusal a method answers with when it was called on nothing.
pub open spec fn called_on_nothing(name: Seq<char>) -> ErrorView {
    ErrorView::Unsupported(name + " called on nothing needs globalThis, which is not supported yet"@)
}

/// The receiver of a call, or why there is none.
pub open spec fn receiver_of(receiver: Option<Value>, name: Seq<char>) -> Result<Value, ErrorView> {
    match receiver {
        Some(value) => Ok(value),
        None => Err(called_on_nothing(name)),
    }
}

/// The argument at `index`, which is `undefined` when there is none.
pub open spec fn argument(args: Seq<Value>, index: int) -> Value {
    if index < args.len() {
        args[index]
    } else {
        Value::Undefined
    }
}

/// The outcome of a builtin as mathematical values.
pub open spec fn outcome<T>(result: Result<T, RuntimeError>) -> Result<T, ErrorView> {
    match result {
        Ok(value) => Ok(value),
        Err(error) => Err(error@),
    }
}

/// The argument at `index`, which is `undefined` when there is none.
pub fn arg(args: &[Value], index: usize) -> (value: Value)
    ensures
        value == argument(args@, index as int),
{
    if index < args.len() {
        args[index]
    } else {
        Value::Undefined
    }
}

/// The receiver of a call.
///
/// A function called on nothing has the global object as its receiver, and there is no global object
/// to hand over yet.
pub fn this_value(receiver: Option<Value>, name: &str) -> (value: Result<Value, RuntimeError>)
    ensures
        outcome(value) == receiver_of(receiver, name@),
{
    match receiver {
        Some(value) => Ok(value),
        None => {
            let mut message = name.to_owned();
            message.append(" called on nothing needs globalThis, which is not supported yet");
            Err(RuntimeError::Unsupported(message))
        },
    }
}

/// The array index a key is, if it is the canonical spelling of one.
fn key_index(key: &str) -> (index: Option<u64>)
    ensures
        index is Some <==> index_of_key(key@) is Some,
        index matches Some(found) ==> index_of_key(key@) == Some(found as nat),
{
    parse_decimal(key, MAX_INDEX)
}

impl ObjectData {
    /// Where a key is among the properties.
    fn position(&self, key: &str) -> (index: Option<usize>)
        ensures
            index is Some <==> find(self@.properties, key@) is Some,
            index matches Some(found) ==> find(self@.properties, key@) == Some(found as int) && found
                < self.properties@.len(),
    {
        let mut at: usize = 0;
        while at < self.properties.len()
            invariant
                at <= self.properties@.len(),
                find(self@.properties, key@) == find_from(self@.properties, key@, at as int),
            decreases self.properties@.len() - at,
        {
            assert(self@.properties[at as int] == self.properties@[at as int]@);
            if same_text(self.properties[at].key.as_str(), key) {
                return Some(at);
            }
            at = at + 1;
        }
        None
    }

    /// Where a key that is not among the properties goes.
    fn place(&self, key: &str) -> (index: usize)
        ensures
            index == place_from(self@.properties, key@, 0),
            index <= self.properties@.len(),
    {
        let added = key_index(key);
        let mut at: usize = 0;
        while at < self.properties.len()
            invariant
                at <= self.properties@.len(),
                added is Some <==> index_of_key(key@) is Some,
                added matches Some(found) ==> index_of_key(key@) == Some(found as nat),
                place_from(self@.properties, key@, 0) == place_from(
                    self@.properties,
                    key@,
                    at as int,
                ),
            decreases self.properties@.len() - at,
        {
            assert(self@.properties[at as int] == self.properties@[at as int]@);
            let before: bool = match (key_index(self.properties[at].key.as_str()), added) {
                (Some(left), Some(right)) => left < right,
                (None, Some(_)) => false,
                _ => true,
            };
            if !before {
                return at;
            }
            at = at + 1;
        }
        at
    }

    /// Define a property.
    fn put(&mut self, key: &str, value: Value, attributes: Attributes)
        ensures
            final(self)@ == (ObjectView {
                properties: with_property(
                    old(self)@.properties,
                    PropertyView { key: key@, value, attributes },
                ),
                ..old(self)@
            }),
    {
        let ghost before = self@;
        let ghost added = PropertyView { key: key@, value, attributes };
        let property = Property { key: key.to_owned(), value, attributes };
        match self.position(key) {
            Some(index) => {
                self.properties[index] = property;
                assert(self@.properties =~= before.properties.update(index as int, added));
            },
            None => {
                let index: usize = self.place(key);
                self.properties.insert(index, property);
                assert(self@.properties =~= before.properties.insert(index as int, added));
            },
        }
    }
}

/// The object model of one isolate.
#[derive(Debug)]
pub struct Realm {
    texts: Vec<String>,
    objects: Vec<ObjectData>,
    pairs: Vec<(Option<Value>, Option<Value>)>,
    globals: Vec<(String, Value)>,
    error_prototypes: Vec<Option<usize>>,
    constructing: bool,
    clock: Value,
    output: Vec<(Stream, String)>,
}

impl View for Realm {
    type V = RealmView;

    closed spec fn view(&self) -> RealmView {
        RealmView {
            texts: Seq::new(self.texts@.len(), |i: int| self.texts@[i]@),
            objects: Seq::new(self.objects@.len(), |i: int| self.objects@[i]@),
            pairs: self.pairs@,
            globals: Seq::new(self.globals@.len(), |i: int| (self.globals@[i].0@, self.globals@[i].1)),
            error_prototypes: self.error_prototypes@,
            constructing: self.constructing,
            clock: self.clock,
            output: Seq::new(self.output@.len(), |i: int| (self.output@[i].0, self.output@[i].1@)),
        }
    }
}

impl Realm {
    /// A realm with the two prototypes everything inherits from and nothing else.
    pub fn new() -> (realm: Realm)
        ensures
            realm@.fits(),
            realm@ == RealmView::fresh(),
    {
        let object_prototype = ObjectData {
            prototype: None,
            properties: Vec::new(),
            function: None,
            inspected: "{}".to_owned(),
        };
        let function_prototype = ObjectData {
            prototype: Some(0),
            properties: Vec::new(),
            function: None,
            inspected: "{}".to_owned(),
        };
        let mut objects: Vec<ObjectData> = Vec::new();
        objects.push(object_prototype);
        objects.push(function_prototype);
        let mut error_prototypes: Vec<Option<usize>> = Vec::new();
        let mut kinds: usize = 0;
        while kinds < 7
            invariant
                kinds <= 7,
                error_prototypes@.len() == kinds,
                forall|i: int| 0 <= i < kinds ==> #[trigger] error_prototypes@[i] is None,
            decreases 7 - kinds,
        {
            error_prototypes.push(None);
            kinds = kinds + 1;
        }
        let realm = Realm {
            texts: Vec::new(),
            objects,
            pairs: Vec::new(),
            globals: Vec::new(),
            error_prototypes,
            constructing: false,
            clock: Value::Undefined,
            output: Vec::new(),
        };
        proof {
            let fresh = RealmView::fresh();
            assert(realm@.objects[0].properties =~= Seq::<PropertyView>::empty());
            assert(realm@.objects[1].properties =~= Seq::<PropertyView>::empty());
            assert(realm@.texts =~= fresh.texts);
            assert(realm@.objects =~= fresh.objects);
            assert(realm@.globals =~= fresh.globals);
            assert(realm@.error_prototypes =~= fresh.error_prototypes);
            assert(realm@.output =~= fresh.output);
            assert(realm@.pairs =~= fresh.pairs);
        }
        realm
    }

    /// The object every ordinary object inherits from.
    pub fn object_prototype(&self) -> (prototype: Value)
        ensures
            prototype == Value::Object(0),
    {
        Value::Object(0)
    }

    /// The object every function inherits from.
    pub fn function_prototype(&self) -> (prototype: Value)
        ensures
            prototype == Value::Object(1),
    {
        Value::Object(1)
    }

    /// Make a string.
    pub fn new_string(&mut self, text: &str) -> (value: Value)
        requires
            old(self)@.fits(),
        ensures
            final(self)@.fits(),
            old(self)@.grows_into(final(self)@),
            final(self)@ == old(self)@.with_text(text@),
            value == Value::Text(old(self)@.texts.len() as usize),
            final(self)@.knows(value),
    {
        let ghost before = self@;
        let index: usize = self.texts.len();
        self.texts.push(text.to_owned());
        proof {
            assert(self@.texts =~= before.texts.push(text@));
            assert(self@.objects =~= before.objects);
            assert(self@.globals =~= before.globals);
            assert(self@.output =~= before.output);
            assert(self.texts@.len() == self.texts.len());
            lemma_more_text_fits(before, text@);
        }
        Value::Text(index)
    }

    /// Make a number, given by its bit pattern and the text it converts to.
    pub fn new_number(&mut self, bits: u64, text: &str) -> (value: Value)
        requires
            old(self)@.fits(),
        ensures
            final(self)@.fits(),
            old(self)@.grows_into(final(self)@),
            final(self)@ == old(self)@.with_text(text@),
            value == (Value::Number { bits, text: old(self)@.texts.len() as usize }),
            final(self)@.knows(value),
    {
        match self.new_string(text) {
            Value::Text(index) => Value::Number { bits, text: index },
            other => other,
        }
    }

    /// Add an object.
    fn add(&mut self, object: ObjectData) -> (value: Value)
        requires
            old(self)@.fits(),
            object@.properties.len() == 0,
            object.prototype matches Some(above) ==> above < old(self)@.objects.len(),
        ensures
            final(self)@.fits(),
            old(self)@.grows_into(final(self)@),
            final(self)@ == old(self)@.with_object(object@),
            value == Value::Object(old(self)@.objects.len() as usize),
            final(self)@.knows(value),
    {
        let ghost before = self@;
        let index: usize = self.objects.len();
        self.objects.push(object);
        proof {
            assert(self@.objects =~= before.objects.push(object@));
            assert(self@.texts =~= before.texts);
            assert(self@.globals =~= before.globals);
            assert(self@.output =~= before.output);
            assert(self.objects@.len() == self.objects.len());
            lemma_more_objects_fit(before, object@);
        }
        Value::Object(index)
    }

    /// Make an object that inherits from `prototype`, which is an object or `null`.
    ///
    /// # Errors
    ///
    /// A `TypeError` that names the value, when it is neither. A link can only point at an object
    /// that is not a function.
    pub fn new_object_with_prototype(&mut self, prototype: Value) -> (made: Result<
        Value,
        RuntimeError,
    >)
        requires
            old(self)@.fits(),
            old(self)@.knows(prototype),
        ensures
            final(self)@.fits(),
            old(self)@.grows_into(final(self)@),
            (outcome(made), final(self)@) == old(self)@.object_below(prototype),
    {
        if !prototype.is_null() && !self.is_ordinary_object(prototype) {
            let mut message = "Object prototype may only be an Object or null: ".to_owned();
            let what = self.display(prototype);
            message.append(what.as_str());
            return Err(RuntimeError::Type(message));
        }
        let above: Option<usize> = match prototype {
            Value::Object(object) => Some(object),
            _ => None,
        };
        let object = ObjectData {
            prototype: above,
            properties: Vec::new(),
            function: None,
            inspected: "{}".to_owned(),
        };
        assert(object@.properties =~= Seq::<PropertyView>::empty());
        Ok(self.add(object))
    }

    /// Make a function written in Rust.
    pub fn native_function(&mut self, name: &str, native: Native) -> (function: Value)
        requires
            old(self)@.fits(),
        ensures
            final(self)@.fits(),
            old(self)@.grows_into(final(self)@),
            final(self)@ == old(self)@.with_object(RealmView::native_object(name@, native, false)),
            function == Value::Object(old(self)@.objects.len() as usize),
            final(self)@.knows(function),
            final(self)@.calls(function),
    {
        self.add_native(name, native, false)
    }

    /// Make a function written in Rust that `new` may be put in front of.
    pub fn native_constructor(&mut self, name: &str, native: Native) -> (function: Value)
        requires
            old(self)@.fits(),
        ensures
            final(self)@.fits(),
            old(self)@.grows_into(final(self)@),
            final(self)@ == old(self)@.with_object(RealmView::native_object(name@, native, true)),
            function == Value::Object(old(self)@.objects.len() as usize),
            final(self)@.knows(function),
            final(self)@.calls(function),
    {
        self.add_native(name, native, true)
    }

    fn add_native(&mut self, name: &str, native: Native, constructs: bool) -> (function: Value)
        requires
            old(self)@.fits(),
        ensures
            final(self)@.fits(),
            old(self)@.grows_into(final(self)@),
            final(self)@ == old(self)@.with_object(
                RealmView::native_object(name@, native, constructs),
            ),
            function == Value::Object(old(self)@.objects.len() as usize),
            final(self)@.knows(function),
            final(self)@.calls(function),
    {
        let mut inspected = "[Function: ".to_owned();
        inspected.append(name);
        inspected.append("]");
        let object = ObjectData {
            prototype: Some(1),
            properties: Vec::new(),
            function: Some(
                FunctionData { name: name.to_owned(), native: Some(native), constructs },
            ),
            inspected,
        };
        proof {
            assert(object@.properties =~= Seq::<PropertyView>::empty());
            assert(object@ == RealmView::native_object(name@, native, constructs));
        }
        self.add(object)
    }

    /// Make a function that a program wrote.
    pub fn closure(&mut self, name: &str) -> (function: Value)
        requires
            old(self)@.fits(),
        ensures
            final(self)@.fits(),
            old(self)@.grows_into(final(self)@),
            final(self)@ == old(self)@.with_object(RealmView::closure_object(name@)),
            function == Value::Object(old(self)@.objects.len() as usize),
            final(self)@.knows(function),
            final(self)@.calls(function),
    {
        let mut inspected = String::new();
        if name.is_empty() {
            inspected.append("[Function (anonymous)]");
        } else {
            inspected.append("[Function: ");
            inspected.append(name);
            inspected.append("]");
        }
        let object = ObjectData {
            prototype: Some(1),
            properties: Vec::new(),
            function: Some(FunctionData { name: name.to_owned(), native: None, constructs: true }),
            inspected,
        };
        proof {
            let view = RealmView::closure_object(name@);
            assert(object@.properties =~= Seq::<PropertyView>::empty());
            assert(object@.inspected =~= view.inspected);
            assert(object@ == view);
        }
        self.add(object)
    }

    /// Say how the console shows an object.
    pub fn set_inspected(&mut self, object: usize, text: &str)
        requires
            old(self)@.fits(),
            object < old(self)@.objects.len(),
        ensures
            final(self)@.fits(),
            old(self)@.grows_into(final(self)@),
            final(self)@ == (RealmView {
                objects: old(self)@.objects.update(
                    object as int,
                    ObjectView { inspected: text@, ..old(self)@.objects[object as int] },
                ),
                ..old(self)@
            }),
    {
        let ghost before = self@;
        let ghost changed = ObjectView { inspected: text@, ..before.objects[object as int] };
        self.objects[object].inspected = text.to_owned();
        proof {
            assert(self.objects@[object as int]@.properties =~= before.objects[object as int].properties);
            assert(self@.objects =~= before.objects.update(object as int, changed));
            assert(self@.texts =~= before.texts);
            assert(self@.globals =~= before.globals);
            assert(self@.output =~= before.output);
            assert(before.object_fits(object as int));
            lemma_a_changed_object_fits(before, self@, object as int);
        }
    }

    /// Define a property of an object, whatever was there before.
    ///
    /// The value of an accessor is a pair of this realm, and that of any other property is a value a
    /// program can hold.
    pub fn define_property(&mut self, target: Value, key: &str, value: Value, attributes: Attributes)
        requires
            old(self)@.fits(),
            old(self)@.knows(target),
            target is Object,
            old(self)@.slot_fits(PropertyView { key: key@, value, attributes }),
        ensures
            final(self)@.fits(),
            old(self)@.grows_into(final(self)@),
            final(self)@ == old(self)@.with_own(target->Object_0 as int, key@, value, attributes),
    {
        if let Value::Object(object) = target {
            let ghost before = self@;
            self.objects[object].put(key, value, attributes);
            proof {
                let after = before.with_own(object as int, key@, value, attributes);
                assert(self@.objects =~= after.objects);
                assert(self@.texts =~= before.texts);
                assert(self@.globals =~= before.globals);
                assert(self@.output =~= before.output);
                lemma_a_defined_property_fits(before, object as int, key@, value, attributes);
            }
        }
    }

    /// Bind a name in the global scope.
    pub fn define_global(&mut self, name: &str, value: Value)
        requires
            old(self)@.fits(),
            old(self)@.knows(value),
        ensures
            final(self)@.fits(),
            old(self)@.grows_into(final(self)@),
            final(self)@ == old(self)@.with_global(name@, value),
    {
        let ghost before = self@;
        self.globals.push((name.to_owned(), value));
        proof {
            assert(self@.globals =~= before.globals.push((name@, value)));
            assert(self@.texts =~= before.texts);
            assert(self@.objects =~= before.objects);
            assert(self@.output =~= before.output);
            lemma_same_objects_fit(before, self@);
        }
    }

    /// What a name is bound to in the global scope.
    pub fn global(&self, name: &str) -> (value: Option<Value>)
        ensures
            value == self@.bound(name@),
    {
        let mut left: usize = self.globals.len();
        while left > 0
            invariant
                left <= self.globals@.len(),
                self@.bound(name@) == self@.global_among(name@, left as int),
            decreases left,
        {
            assert(self@.globals[left - 1] == (self.globals@[left - 1].0@, self.globals@[left - 1].1));
            if same_text(self.globals[left - 1].0.as_str(), name) {
                return Some(self.globals[left - 1].1);
            }
            left = left - 1;
        }
        None
    }

    /// Whether a value is one of this realm's, which every other method asks of the values it is
    /// handed.
    #[must_use]
    pub fn holds(&self, value: Value) -> (answer: bool)
        ensures
            answer == self@.knows(value),
    {
        match value {
            Value::Number { text, .. } => text < self.texts.len(),
            Value::Text(text) => text < self.texts.len(),
            Value::Object(object) => object < self.objects.len(),
            Value::Pair(_) => false,
            _ => true,
        }
    }

    /// Whether a value is an object that is not a function.
    pub fn is_ordinary_object(&self, value: Value) -> (answer: bool)
        requires
            self@.knows(value),
        ensures
            answer == self@.is_plain_object(value),
    {
        match value {
            Value::Object(object) => {
                assert(self@.objects[object as int] == self.objects@[object as int]@);
                self.objects[object].function.is_none()
            },
            _ => false,
        }
    }

    /// Whether a value is something that can be called.
    pub fn is_callable(&self, value: Value) -> (answer: bool)
        requires
            self@.knows(value),
        ensures
            answer == self@.calls(value),
    {
        match value {
            Value::Object(object) => {
                assert(self@.objects[object as int] == self.objects@[object as int]@);
                self.objects[object].function.is_some()
            },
            _ => false,
        }
    }

    /// The Rust behind a function, for a function that is not written in JavaScript.
    pub fn native_of(&self, value: Value) -> (native: Option<Native>)
        requires
            self@.knows(value),
        ensures
            native == self@.native_behind(value),
    {
        match value {
            Value::Object(object) => {
                assert(self@.objects[object as int] == self.objects@[object as int]@);
                match &self.objects[object].function {
                    Some(function) => function.native,
                    None => None,
                }
            },
            _ => None,
        }
    }

    /// The name a function was written under.
    pub fn function_name(&self, value: Value) -> (name: Option<String>)
        requires
            self@.knows(value),
        ensures
            name is Some <==> self@.calls(value),
            name matches Some(text) ==> text@
                == self@.objects[value->Object_0 as int].function->0.name,
    {
        match value {
            Value::Object(object) => {
                assert(self@.objects[object as int] == self.objects@[object as int]@);
                match &self.objects[object].function {
                    Some(function) => Some(function.name.clone()),
                    None => None,
                }
            },
            _ => None,
        }
    }

    /// The property an object has of its own under a key.
    pub fn own_descriptor(&self, value: Value, key: &str) -> (found: Option<(Value, Attributes)>)
        requires
            self@.fits(),
            self@.knows(value),
        ensures
            found == self@.own(value, key@),
            found matches Some(property) ==> self@.slot_fits(
                PropertyView { key: key@, value: property.0, attributes: property.1 },
            ),
    {
        match value {
            Value::Object(object) => {
                assert(self@.objects[object as int] == self.objects@[object as int]@);
                let data = &self.objects[object];
                match data.position(key) {
                    Some(index) => {
                        proof {
                            lemma_found_is_there(data@.properties, key@, 0);
                            assert(self@.object_fits(object as int));
                            assert(data@.properties[index as int] == data.properties@[index as int]@);
                        }
                        Some((data.properties[index].value, data.properties[index].attributes))
                    },
                    None => None,
                }
            },
            _ => None,
        }
    }

    /// The properties of an object that walking it shows, in order, or `None` for a value that is not
    /// an object.
    pub fn own_properties(&self, value: Value) -> (properties: Option<Vec<Property>>)
        requires
            self@.fits(),
            self@.knows(value),
        ensures
            properties is Some <==> self@.walked(value) is Some,
            properties matches Some(list) ==> {
                &&& Seq::new(list@.len(), |i: int| list@[i]@) == self@.walked(value)->0
                &&& forall|i: int| 0 <= i < list@.len() ==> self@.slot_fits((#[trigger] list@[i])@)
            },
    {
        let object: usize = match value {
            Value::Object(object) => object,
            _ => {
                return None;
            },
        };
        assert(self@.objects[object as int] == self.objects@[object as int]@);
        let data = &self.objects[object];
        let ghost all = data@.properties;
        assert(self@.object_fits(object as int));
        let mut list: Vec<Property> = Vec::new();
        let mut at: usize = 0;
        assert(all.take(0) =~= Seq::<PropertyView>::empty());
        assert(Seq::new(list@.len(), |i: int| list@[i]@) =~= shown(all.take(0)));
        while at < data.properties.len()
            invariant
                at <= data.properties@.len(),
                all == data@.properties,
                forall|i: int| 0 <= i < all.len() ==> self@.slot_fits(#[trigger] all[i]),
                Seq::new(list@.len(), |i: int| list@[i]@) == shown(all.take(at as int)),
                forall|i: int| 0 <= i < list@.len() ==> self@.slot_fits((#[trigger] list@[i])@),
            decreases data.properties@.len() - at,
        {
            let property = &data.properties[at];
            let ghost gathered = list@;
            proof {
                let next = all.take(at + 1);
                assert(next.drop_last() =~= all.take(at as int));
                assert(next.last() == property@);
                assert(self@.slot_fits(all[at as int]));
            }
            if property.attributes.enumerable {
                let copy = Property {
                    key: property.key.clone(),
                    value: property.value,
                    attributes: property.attributes,
                };
                assert(copy@ == property@);
                list.push(copy);
                proof {
                    assert(Seq::new(list@.len(), |i: int| list@[i]@) =~= Seq::new(
                        gathered.len(),
                        |i: int| gathered[i]@,
                    ).push(property@));
                }
            }
            at = at + 1;
        }
        assert(all.take(at as int) =~= all);
        Some(list)
    }

    /// What is above a value: the object it inherits from or `null`, and `None` for a value that is
    /// not an object.
    pub fn prototype_of(&self, value: Value) -> (above: Option<Value>)
        requires
            self@.fits(),
            self@.knows(value),
        ensures
            above == self@.above(value),
            above matches Some(found) ==> self@.knows(found),
            above matches Some(Value::Object(found)) ==> found < value->Object_0,
    {
        match value {
            Value::Object(object) => {
                assert(self@.objects[object as int] == self.objects@[object as int]@);
                assert(self@.object_fits(object as int));
                match self.objects[object].prototype {
                    Some(above) => Some(Value::Object(above)),
                    None => Some(Value::Null),
                }
            },
            _ => None,
        }
    }

    /// Whether one object is anywhere above another, which does not count itself.
    pub(crate) fn is_above(&self, upper: Value, object: usize) -> (answer: bool)
        requires
            self@.fits(),
            object < self@.objects.len(),
        ensures
            answer == self@.is_above(upper, object as int),
    {
        let mut walking: usize = object;
        loop
            invariant
                self@.fits(),
                walking < self@.objects.len(),
                self@.is_above(upper, object as int) == self@.is_above(upper, walking as int),
            decreases walking,
        {
            match self.prototype_of(Value::Object(walking)) {
                Some(Value::Object(above)) => {
                    if Value::Object(above) == upper {
                        return true;
                    }
                    walking = above;
                },
                _ => {
                    return false;
                },
            }
        }
    }

    /// Read a property, on the object or above it.
    ///
    /// # Errors
    ///
    /// A refusal when the property is an accessor, because reading it means calling it.
    pub fn lookup(&self, value: Value, key: &str) -> (found: Result<Option<Value>, RuntimeError>)
        requires
            self@.fits(),
            self@.knows(value),
        ensures
            outcome(found) == self@.looked_up(value, key@),
            found matches Ok(Some(held)) ==> self@.knows(held),
    {
        let mut object: usize = match value {
            Value::Object(object) => object,
            _ => {
                return Ok(None);
            },
        };
        let ghost start = object;
        loop
            invariant
                self@.fits(),
                object < self@.objects.len(),
                value == Value::Object(start),
                self@.inherited(start as int, key@) == self@.inherited(object as int, key@),
            decreases object,
        {
            assert(self@.objects[object as int] == self.objects@[object as int]@);
            assert(self@.object_fits(object as int));
            match self.own_descriptor(Value::Object(object), key) {
                Some((held, attributes)) => {
                    if attributes.accessor {
                        return Err(Realm::native_met_an_accessor(key));
                    }
                    return Ok(Some(held));
                },
                None => {},
            }
            match self.objects[object].prototype {
                Some(above) => {
                    object = above;
                },
                None => {
                    return Ok(None);
                },
            }
        }
    }

    /// The refusal a builtin answers with when reading a property would mean calling something.
    pub fn native_met_an_accessor(key: &str) -> (error: RuntimeError)
        ensures
            error@ == met_an_accessor(key@),
    {
        let mut message = "reading '".to_owned();
        message.append(key);
        message.append(
            "' here means calling a getter, which a function written in Rust cannot do yet",
        );
        RuntimeError::Unsupported(message)
    }

    /// The text of a string, or `None` for a value that is not one.
    pub fn as_text(&self, value: Value) -> (text: Option<String>)
        requires
            self@.knows(value),
        ensures
            text is Some <==> value is Text,
            text matches Some(found) ==> found@ == self@.texts[value->Text_0 as int],
    {
        match value {
            Value::Text(index) => Some(self.text_at(index)),
            _ => None,
        }
    }

    /// What a number converts to.
    pub(crate) fn number_text(&self, bits: u64, text: usize) -> (out: String)
        requires
            text < self@.texts.len(),
        ensures
            out@ == self@.number_text(bits, text),
    {
        let magnitude: u64 = bits % 0x8000_0000_0000_0000;
        if magnitude == 0 {
            "0".to_owned()
        } else if magnitude > 0x7FF0_0000_0000_0000 {
            "NaN".to_owned()
        } else if bits == 0x7FF0_0000_0000_0000 {
            "Infinity".to_owned()
        } else if bits == 0xFFF0_0000_0000_0000 {
            "-Infinity".to_owned()
        } else {
            self.text_at(text)
        }
    }

    pub(crate) fn text_at(&self, index: usize) -> (text: String)
        requires
            index < self@.texts.len(),
        ensures
            text@ == self@.texts[index as int],
    {
        self.texts[index].clone()
    }

    /// How the console shows a value at the top level.
    pub fn display(&self, value: Value) -> (text: String)
        requires
            self@.knows(value),
        ensures
            text@ == self@.display_text(value),
    {
        match value {
            Value::Undefined => "undefined".to_owned(),
            Value::Null => "null".to_owned(),
            Value::Bool(b) => if b {
                "true".to_owned()
            } else {
                "false".to_owned()
            },
            Value::Number { bits, text } => if bits == 0x8000_0000_0000_0000 {
                "-0".to_owned()
            } else {
                self.number_text(bits, text)
            },
            Value::Text(text) => self.text_at(text),
            Value::Object(object) => self.objects[object].inspected.clone(),
            Value::Pair(_) => String::new(),
        }
    }

    /// Whether a value counts as true.
    pub fn is_truthy(&self, value: Value) -> (answer: bool)
        requires
            self@.knows(value),
        ensures
            answer == self@.truthy(value),
    {
        match value {
            Value::Undefined | Value::Null => false,
            Value::Bool(b) => b,
            Value::Number { bits, .. } => {
                let size: u64 = bits % 0x8000_0000_0000_0000;
                size != 0 && size <= 0x7FF0_0000_0000_0000
            },
            Value::Text(text) => {
                assert(self@.texts[text as int] == self.texts@[text as int]@);
                !self.texts[text].as_str().is_empty()
            },
            _ => true,
        }
    }

    /// Whether two values are the same value, which is not `===`: every number that is not a number
    /// is the same value as any other, and the two zeros are not.
    pub fn same_value(&self, left: Value, right: Value) -> (answer: bool)
        requires
            self@.knows(left),
            self@.knows(right),
        ensures
            answer == self@.same(left, right),
    {
        match (left, right) {
            (Value::Number { bits: a, .. }, Value::Number { bits: b, .. }) => {
                let first: u64 = a % 0x8000_0000_0000_0000;
                let second: u64 = b % 0x8000_0000_0000_0000;
                a == b || (first > 0x7FF0_0000_0000_0000 && second > 0x7FF0_0000_0000_0000)
            },
            (Value::Text(a), Value::Text(b)) => {
                assert(self@.texts[a as int] == self.texts@[a as int]@);
                assert(self@.texts[b as int] == self.texts@[b as int]@);
                same_text(self.texts[a].as_str(), self.texts[b].as_str())
            },
            _ => left == right,
        }
    }

    /// Make an accessor pair.
    pub fn accessor_pair(&mut self, getter: Option<Value>, setter: Option<Value>) -> (pair: Value)
        requires
            old(self)@.fits(),
            getter matches Some(half) ==> old(self)@.knows(half),
            setter matches Some(half) ==> old(self)@.knows(half),
        ensures
            final(self)@.fits(),
            old(self)@.grows_into(final(self)@),
            final(self)@ == old(self)@.with_pair(getter, setter),
            pair == Value::Pair(old(self)@.pairs.len() as usize),
    {
        let ghost before = self@;
        let index: usize = self.pairs.len();
        self.pairs.push((getter, setter));
        proof {
            assert(self@.texts =~= before.texts);
            assert(self@.objects =~= before.objects);
            assert(self@.globals =~= before.globals);
            assert(self@.output =~= before.output);
            assert(self.pairs@.len() == self.pairs.len());
            lemma_more_pairs_fit(before, getter, setter);
        }
        Value::Pair(index)
    }

    /// The getter and the setter of an accessor.
    pub fn accessor_halves(&self, pair: Value) -> (halves: (Option<Value>, Option<Value>))
        requires
            self@.fits(),
            pair matches Value::Pair(index) && index < self@.pairs.len(),
        ensures
            halves == self@.pairs[pair->Pair_0 as int],
            halves.0 matches Some(getter) ==> self@.knows(getter),
            halves.1 matches Some(setter) ==> self@.knows(setter),
    {
        match pair {
            Value::Pair(index) => {
                assert(self@.pair_fits(self@.pairs[index as int]));
                self.pairs[index]
            },
            _ => (None, None),
        }
    }

    /// Make an object with these properties, all with the same attributes.
    pub fn host_object_with(
        &mut self,
        entries: &[(&'static str, Value)],
        attributes: Attributes,
    ) -> (object: Value)
        requires
            old(self)@.fits(),
            !attributes.accessor,
            forall|i: int| 0 <= i < entries@.len() ==> old(self)@.knows((#[trigger] entries@[i]).1),
        ensures
            final(self)@.fits(),
            old(self)@.grows_into(final(self)@),
            object == Value::Object(old(self)@.objects.len() as usize),
            final(self)@.knows(object),
            final(self)@ == old(self)@.with_object(RealmView::empty_object(Some(0usize))).with_entries(
                old(self)@.objects.len() as int,
                entry_views(entries@),
                attributes,
            ),
    {
        let ghost before = self@;
        let data = ObjectData {
            prototype: Some(0),
            properties: Vec::new(),
            function: None,
            inspected: "{}".to_owned(),
        };
        assert(data@.properties =~= Seq::<PropertyView>::empty());
        let object = self.add(data);
        let ghost bare = self@;
        let ghost all = entry_views(entries@);
        let mut at: usize = 0;
        assert(all.take(0) =~= Seq::<(Seq<char>, Value)>::empty());
        proof {
            lemma_growing_is_reflexive(bare);
        }
        while at < entries.len()
            invariant
                at <= entries@.len(),
                all == entry_views(entries@),
                self@.fits(),
                before.grows_into(bare),
                bare.grows_into(self@),
                !attributes.accessor,
                object == Value::Object(before.objects.len() as usize),
                bare.knows(object),
                forall|i: int| 0 <= i < entries@.len() ==> before.knows((#[trigger] entries@[i]).1),
                self@ == bare.with_entries(
                    before.objects.len() as int,
                    all.take(at as int),
                    attributes,
                ),
            decreases entries@.len() - at,
        {
            let (key, value) = entries[at];
            proof {
                let next = all.take(at + 1);
                assert(next.drop_last() =~= all.take(at as int));
                assert(next.last() == (key@, value));
                lemma_growing_keeps_values(before, bare, value);
                lemma_growing_keeps_values(bare, self@, value);
                lemma_growing_keeps_values(bare, self@, object);
            }
            let ghost held = self@;
            self.define_property(object, key, value, attributes);
            proof {
                lemma_growing_is_transitive(bare, held, self@);
            }
            at = at + 1;
        }
        proof {
            assert(all.take(at as int) =~= all);
            lemma_growing_is_transitive(before, bare, self@);
            lemma_growing_keeps_values(bare, self@, object);
        }
        object
    }

    /// Make an object with these properties, as if they had been assigned.
    pub fn host_object(&mut self, entries: &[(&'static str, Value)]) -> (object: Value)
        requires
            old(self)@.fits(),
            forall|i: int| 0 <= i < entries@.len() ==> old(self)@.knows((#[trigger] entries@[i]).1),
        ensures
            final(self)@.fits(),
            old(self)@.grows_into(final(self)@),
            object == Value::Object(old(self)@.objects.len() as usize),
            final(self)@.knows(object),
            final(self)@ == old(self)@.with_object(RealmView::empty_object(Some(0usize))).with_entries(
                old(self)@.objects.len() as int,
                entry_views(entries@),
                Attributes::data(true, true, true),
            ),
    {
        self.host_object_with(entries, Attributes::plain())
    }

    /// The prototype the engine builds errors of a kind from, if there is one yet.
    pub fn error_prototype(&self, kind: ErrorKind) -> (prototype: Option<Value>)
        requires
            self@.fits(),
        ensures
            prototype == match self@.error_prototypes[kind.position()] {
                Some(object) => Some(Value::Object(object)),
                None => None,
            },
            prototype matches Some(found) ==> self@.knows(found) && self@.is_plain_object(found),
    {
        match self.error_prototypes[kind.index()] {
            Some(object) => Some(Value::Object(object)),
            None => None,
        }
    }

    /// Say what the engine builds errors of a kind from.
    pub fn set_error_prototype(&mut self, kind: ErrorKind, prototype: usize)
        requires
            old(self)@.fits(),
            old(self)@.is_plain_object(Value::Object(prototype)),
        ensures
            final(self)@.fits(),
            old(self)@.grows_into(final(self)@),
            final(self)@ == (RealmView {
                error_prototypes: old(self)@.error_prototypes.update(
                    kind.position(),
                    Some(prototype),
                ),
                ..old(self)@
            }),
    {
        let ghost before = self@;
        let index: usize = kind.index();
        self.error_prototypes[index] = Some(prototype);
        proof {
            assert(self@.texts =~= before.texts);
            assert(self@.objects =~= before.objects);
            assert(self@.globals =~= before.globals);
            assert(self@.output =~= before.output);
            lemma_same_objects_fit(before, self@);
        }
    }

    /// Whether the call that is running was made with `new`.
    pub fn called_with_new(&self) -> (answer: bool)
        ensures
            answer == self@.constructing,
    {
        self.constructing
    }

    /// Say whether the call about to be made is made with `new`.
    pub fn set_called_with_new(&mut self, constructing: bool)
        requires
            old(self)@.fits(),
        ensures
            final(self)@.fits(),
            old(self)@.grows_into(final(self)@),
            final(self)@ == (RealmView { constructing, ..old(self)@ }),
    {
        let ghost before = self@;
        self.constructing = constructing;
        proof {
            assert(self@.texts =~= before.texts);
            assert(self@.objects =~= before.objects);
            assert(self@.globals =~= before.globals);
            assert(self@.output =~= before.output);
            lemma_same_objects_fit(before, self@);
        }
    }

    /// The latest reading of the clock.
    pub fn clock(&self) -> (reading: Value)
        ensures
            reading == self@.clock,
    {
        self.clock
    }

    /// Note a reading of the clock.
    pub fn set_clock(&mut self, reading: Value)
        requires
            old(self)@.fits(),
            old(self)@.knows(reading),
        ensures
            final(self)@.fits(),
            old(self)@.grows_into(final(self)@),
            final(self)@ == (RealmView { clock: reading, ..old(self)@ }),
    {
        let ghost before = self@;
        self.clock = reading;
        proof {
            assert(self@.texts =~= before.texts);
            assert(self@.objects =~= before.objects);
            assert(self@.globals =~= before.globals);
            assert(self@.output =~= before.output);
            lemma_same_objects_fit(before, self@);
        }
    }

    /// Write a line.
    pub fn write_output(&mut self, stream: Stream, line: &str)
        requires
            old(self)@.fits(),
        ensures
            final(self)@.fits(),
            old(self)@.grows_into(final(self)@),
            final(self)@ == (RealmView {
                output: old(self)@.output.push((stream, line@)),
                ..old(self)@
            }),
    {
        let ghost before = self@;
        self.output.push((stream, line.to_owned()));
        proof {
            assert(self@.output =~= before.output.push((stream, line@)));
            assert(self@.texts =~= before.texts);
            assert(self@.objects =~= before.objects);
            assert(self@.globals =~= before.globals);
            lemma_same_objects_fit(before, self@);
        }
    }

    /// The lines written so far, and where each went.
    pub fn output(&self) -> (lines: &Vec<(Stream, String)>)
        ensures
            lines@.len() == self@.output.len(),
            forall|i: int|
                0 <= i < lines@.len() ==> (#[trigger] lines@[i]).0 == self@.output[i].0
                    && lines@[i].1@ == self@.output[i].1,
    {
        &self.output
    }

    /// An object as it is kept, for whoever renders or runs it.
    pub fn object(&self, index: usize) -> (object: &ObjectData)
        requires
            index < self@.objects.len(),
        ensures
            object@ == self@.objects[index as int],
    {
        &self.objects[index]
    }

    /// How many objects there are.
    pub fn object_count(&self) -> (count: usize)
        ensures
            count == self@.objects.len(),
    {
        self.objects.len()
    }
}

/// Entries with their names as sequences of characters.
pub open spec fn entry_views(entries: Seq<(&'static str, Value)>) -> Seq<(Seq<char>, Value)> {
    Seq::new(entries.len(), |i: int| (entries[i].0@, entries[i].1))
}

impl RealmView {
    /// A realm with the two prototypes everything inherits from and nothing else.
    pub open spec fn fresh() -> RealmView {
        RealmView {
            texts: Seq::empty(),
            objects: seq![
                RealmView::empty_object(None),
                RealmView::empty_object(Some(0usize)),
            ],
            pairs: Seq::empty(),
            globals: Seq::empty(),
            error_prototypes: Seq::new(7, |i: int| None),
            constructing: false,
            clock: Value::Undefined,
            output: Seq::empty(),
        }
    }

    /// The object a function that a program wrote is.
    pub open spec fn closure_object(name: Seq<char>) -> ObjectView {
        ObjectView {
            prototype: Some(1usize),
            properties: Seq::empty(),
            function: Some(FunctionView { name, native: None, constructs: true }),
            inspected: if name.len() == 0 {
                "[Function (anonymous)]"@
            } else {
                "[Function: "@ + name + "]"@
            },
        }
    }

    /// The Rust behind a function.
    pub open spec fn native_behind(self, value: Value) -> Option<Native> {
        match value {
            Value::Object(object) => match self.objects[object as int].function {
                Some(function) => function.native,
                None => None,
            },
            _ => None,
        }
    }

    /// What making an object below a prototype answers, and the realm after it.
    pub open spec fn object_below(self, prototype: Value) -> (Result<Value, ErrorView>, RealmView) {
        if prototype == Value::Null {
            (
                Ok(Value::Object(self.objects.len() as usize)),
                self.with_object(RealmView::empty_object(None)),
            )
        } else if self.is_plain_object(prototype) {
            (
                Ok(Value::Object(self.objects.len() as usize)),
                self.with_object(RealmView::empty_object(Some(prototype->Object_0))),
            )
        } else {
            (
                Err(
                    ErrorView::Type(
                        "Object prototype may only be an Object or null: "@ + self.display_text(
                            prototype,
                        ),
                    ),
                ),
                self,
            )
        }
    }
}

/// Where a key is found there is that key, and where it is not found it is nowhere.
pub proof fn lemma_found_is_there(properties: Seq<PropertyView>, key: Seq<char>, from: int)
    requires
        0 <= from,
    ensures
        find_from(properties, key, from) matches Some(index) ==> from <= index < properties.len()
            && properties[index].key == key,
        find_from(properties, key, from) is None ==> forall|i: int|
            from <= i < properties.len() ==> (#[trigger] properties[i]).key != key,
    decreases properties.len() - from,
{
    if from < properties.len() && properties[from].key != key {
        lemma_found_is_there(properties, key, from + 1);
    }
}

/// In a list that is well listed a key is found where it is.
pub proof fn lemma_there_is_found(properties: Seq<PropertyView>, index: int)
    requires
        well_listed(properties),
        0 <= index < properties.len(),
    ensures
        find(properties, properties[index].key) == Some(index),
{
    lemma_found_is_there(properties, properties[index].key, 0);
    let found = find(properties, properties[index].key)->0;
    if found < index {
        assert(properties[found].key != properties[index].key);
    } else if index < found {
        assert(properties[index].key != properties[found].key);
    }
}

/// Where a key is placed, everything in front goes before it and nothing behind does.
proof fn lemma_place(properties: Seq<PropertyView>, key: Seq<char>, from: int)
    requires
        0 <= from <= properties.len(),
    ensures
        from <= place_from(properties, key, from) <= properties.len(),
        forall|i: int|
            from <= i < place_from(properties, key, from) ==> goes_before(
                (#[trigger] properties[i]).key,
                key,
            ),
        place_from(properties, key, from) < properties.len() ==> !goes_before(
            properties[place_from(properties, key, from)].key,
            key,
        ),
    decreases properties.len() - from,
{
    if from < properties.len() && goes_before(properties[from].key, key) {
        lemma_place(properties, key, from + 1);
    }
}

/// Two different keys are shown one before the other.
proof fn lemma_one_goes_first(left: Seq<char>, right: Seq<char>)
    requires
        left != right,
        !goes_before(left, right),
    ensures
        goes_before(right, left),
{
    if index_of_key(left) is Some && index_of_key(right) is Some {
        lemma_decimal_text_is_its_number(left);
        lemma_decimal_text_is_its_number(right);
    }
}

/// Going before is transitive when what is last is an index.
proof fn lemma_order_carries(first: Seq<char>, second: Seq<char>, third: Seq<char>)
    requires
        goes_before(first, second),
        goes_before(second, third),
    ensures
        goes_before(first, third),
{
}

/// Defining a property keeps a list well listed.
pub proof fn lemma_with_property_is_well_listed(
    properties: Seq<PropertyView>,
    added: PropertyView,
)
    requires
        well_listed(properties),
    ensures
        well_listed(with_property(properties, added)),
{
    let after = with_property(properties, added);
    lemma_found_is_there(properties, added.key, 0);
    match find(properties, added.key) {
        Some(index) => {
            assert forall|i: int, j: int| 0 <= i < j < after.len() implies (
            #[trigger] after[i]).key != (#[trigger] after[j]).key && goes_before(
                after[i].key,
                after[j].key,
            ) by {
                assert(after[i].key == properties[i].key);
                assert(after[j].key == properties[j].key);
            }
        },
        None => {
            let place = place_from(properties, added.key, 0);
            lemma_place(properties, added.key, 0);
            assert forall|i: int, j: int| 0 <= i < j < after.len() implies (
            #[trigger] after[i]).key != (#[trigger] after[j]).key && goes_before(
                after[i].key,
                after[j].key,
            ) by {
                if i == place {
                    let behind = properties[j - 1];
                    assert(after[j] == behind);
                    if j - 1 == place {
                        lemma_one_goes_first(behind.key, added.key);
                    } else {
                        lemma_one_goes_first(properties[place].key, added.key);
                        assert(goes_before(properties[place].key, behind.key));
                        lemma_order_carries(added.key, properties[place].key, behind.key);
                    }
                } else if j == place {
                    assert(after[i] == properties[i]);
                } else {
                    let left = if i < place {
                        i
                    } else {
                        i - 1
                    };
                    let right = if j < place {
                        j
                    } else {
                        j - 1
                    };
                    assert(after[i] == properties[left]);
                    assert(after[j] == properties[right]);
                }
            }
        },
    }
}

/// What is found under a key after a property was defined.
pub proof fn lemma_find_after_define(
    properties: Seq<PropertyView>,
    added: PropertyView,
    key: Seq<char>,
)
    requires
        well_listed(properties),
    ensures
        find(with_property(properties, added), added.key) matches Some(index) && 0 <= index
            < with_property(properties, added).len() && with_property(properties, added)[index]
            == added,
        key != added.key ==> (find(with_property(properties, added), key) is Some <==> find(
            properties,
            key,
        ) is Some),
        key != added.key ==> (find(properties, key) matches Some(before) ==> find(
            with_property(properties, added),
            key,
        ) is Some && with_property(properties, added)[find(
            with_property(properties, added),
            key,
        )->0] == properties[before]),
{
    let after = with_property(properties, added);
    lemma_with_property_is_well_listed(properties, added);
    lemma_found_is_there(properties, added.key, 0);
    lemma_found_is_there(properties, key, 0);
    lemma_found_is_there(after, key, 0);
    match find(properties, added.key) {
        Some(index) => {
            assert(after[index] == added);
            lemma_there_is_found(after, index);
            if key != added.key {
                if let Some(before) = find(properties, key) {
                    assert(after[before] == properties[before]);
                    lemma_there_is_found(after, before);
                }
                if let Some(later) = find(after, key) {
                    assert(properties[later].key == key);
                }
            }
        },
        None => {
            let place = place_from(properties, added.key, 0);
            lemma_place(properties, added.key, 0);
            assert(after[place] == added);
            lemma_there_is_found(after, place);
            if key != added.key {
                if let Some(before) = find(properties, key) {
                    let moved = if before < place {
                        before
                    } else {
                        before + 1
                    };
                    assert(after[moved] == properties[before]);
                    lemma_there_is_found(after, moved);
                }
                if let Some(later) = find(after, key) {
                    let earlier = if later < place {
                        later
                    } else {
                        later - 1
                    };
                    assert(properties[earlier] == after[later]);
                }
            }
        },
    }
}

pub proof fn lemma_growing_is_reflexive(realm: RealmView)
    ensures
        realm.grows_into(realm),
{
}

pub proof fn lemma_growing_is_transitive(first: RealmView, second: RealmView, third: RealmView)
    requires
        first.grows_into(second),
        second.grows_into(third),
    ensures
        first.grows_into(third),
{
    assert forall|i: int| 0 <= i < first.texts.len() implies #[trigger] third.texts[i]
        == first.texts[i] by {
        assert(second.texts[i] == first.texts[i]);
    }
    assert forall|i: int| 0 <= i < first.objects.len() implies (
    #[trigger] third.objects[i]).function == first.objects[i].function
        && third.objects[i].prototype == first.objects[i].prototype by {
        assert(second.objects[i].function == first.objects[i].function);
    }
    assert forall|i: int| 0 <= i < first.pairs.len() implies #[trigger] third.pairs[i]
        == first.pairs[i] by {
        assert(second.pairs[i] == first.pairs[i]);
    }
}

/// A value stays good, and stays what it is, as a realm grows.
pub proof fn lemma_growing_keeps_values(before: RealmView, after: RealmView, value: Value)
    requires
        before.grows_into(after),
        before.knows(value),
    ensures
        after.knows(value),
        after.calls(value) == before.calls(value),
        after.is_plain_object(value) == before.is_plain_object(value),
        after.truthy(value) == before.truthy(value),
{
}

proof fn lemma_slots_still_fit(before: RealmView, after: RealmView, index: int)
    requires
        before.grows_into(after),
        0 <= index < before.objects.len(),
        before.object_fits(index),
        after.objects[index].properties == before.objects[index].properties,
    ensures
        after.object_fits(index),
{
    assert forall|i: int| 0 <= i < after.objects[index].properties.len() implies after.slot_fits(
        #[trigger] after.objects[index].properties[i],
    ) by {
        assert(before.slot_fits(before.objects[index].properties[i]));
    }
}

proof fn lemma_the_rest_still_fits(before: RealmView, after: RealmView)
    requires
        before.fits(),
        before.grows_into(after),
        after.globals == before.globals,
        after.error_prototypes == before.error_prototypes,
        after.clock == before.clock,
    ensures
        forall|i: int| 0 <= i < before.pairs.len() ==> after.pair_fits(#[trigger] after.pairs[i]),
        forall|i: int| 0 <= i < after.globals.len() ==> after.knows((#[trigger] after.globals[i]).1),
        forall|i: int|
            0 <= i < 7 ==> ((#[trigger] after.error_prototypes[i]) matches Some(object) ==> object
                < after.objects.len() && after.objects[object as int].function is None),
        after.knows(after.clock),
{
    assert forall|i: int| 0 <= i < before.pairs.len() implies after.pair_fits(
        #[trigger] after.pairs[i],
    ) by {
        assert(before.pair_fits(before.pairs[i]));
    }
    assert forall|i: int| 0 <= i < after.globals.len() implies after.knows(
        (#[trigger] after.globals[i]).1,
    ) by {
        assert(before.knows(before.globals[i].1));
    }
    assert forall|i: int| 0 <= i < 7 implies ((#[trigger] after.error_prototypes[i]) matches Some(
        object,
    ) ==> object < after.objects.len() && after.objects[object as int].function is None) by {
        assert(before.error_prototypes[i] == after.error_prototypes[i]);
    }
}

proof fn lemma_more_text_fits(before: RealmView, text: Seq<char>)
    requires
        before.fits(),
        before.texts.len() < usize::MAX,
    ensures
        before.grows_into(before.with_text(text)),
        before.with_text(text).fits(),
{
    let after = before.with_text(text);
    lemma_the_rest_still_fits(before, after);
    assert forall|i: int| 0 <= i < after.objects.len() implies #[trigger] after.object_fits(i) by {
        assert(before.object_fits(i));
        lemma_slots_still_fit(before, after, i);
    }
}

proof fn lemma_more_objects_fit(before: RealmView, object: ObjectView)
    requires
        before.fits(),
        before.objects.len() < usize::MAX,
        object.properties.len() == 0,
        object.prototype matches Some(above) ==> above < before.objects.len(),
    ensures
        before.grows_into(before.with_object(object)),
        before.with_object(object).fits(),
{
    let after = before.with_object(object);
    lemma_the_rest_still_fits(before, after);
    assert forall|i: int| 0 <= i < after.objects.len() implies #[trigger] after.object_fits(i) by {
        if i < before.objects.len() {
            assert(before.object_fits(i));
            lemma_slots_still_fit(before, after, i);
        }
    }
}

proof fn lemma_more_pairs_fit(before: RealmView, getter: Option<Value>, setter: Option<Value>)
    requires
        before.fits(),
        before.pairs.len() < usize::MAX,
        before.pair_fits((getter, setter)),
    ensures
        before.grows_into(before.with_pair(getter, setter)),
        before.with_pair(getter, setter).fits(),
{
    let after = before.with_pair(getter, setter);
    lemma_the_rest_still_fits(before, after);
    assert forall|i: int| 0 <= i < after.objects.len() implies #[trigger] after.object_fits(i) by {
        assert(before.object_fits(i));
        lemma_slots_still_fit(before, after, i);
    }
}

proof fn lemma_same_objects_fit(before: RealmView, after: RealmView)
    requires
        before.fits(),
        after.texts == before.texts,
        after.objects == before.objects,
        after.pairs == before.pairs,
        after.error_prototypes.len() == 7,
        forall|i: int| 0 <= i < after.globals.len() ==> before.knows((#[trigger] after.globals[i]).1),
        forall|i: int|
            0 <= i < 7 ==> ((#[trigger] after.error_prototypes[i]) matches Some(object) ==> object
                < before.objects.len() && before.objects[object as int].function is None),
        before.knows(after.clock),
    ensures
        before.grows_into(after),
        after.fits(),
{
    assert forall|i: int| 0 <= i < after.objects.len() implies #[trigger] after.object_fits(i) by {
        assert(before.object_fits(i));
        lemma_slots_still_fit(before, after, i);
    }
    assert forall|i: int| 0 <= i < after.pairs.len() implies after.pair_fits(
        #[trigger] after.pairs[i],
    ) by {
        assert(before.pair_fits(before.pairs[i]));
    }
}

proof fn lemma_a_changed_object_fits(before: RealmView, after: RealmView, object: int)
    requires
        before.fits(),
        0 <= object < before.objects.len(),
        after == (RealmView {
            objects: before.objects.update(object, after.objects[object]),
            ..before
        }),
        after.objects[object].prototype == before.objects[object].prototype,
        after.objects[object].function == before.objects[object].function,
        well_listed(after.objects[object].properties),
        forall|i: int|
            0 <= i < after.objects[object].properties.len() ==> before.slot_fits(
                #[trigger] after.objects[object].properties[i],
            ),
    ensures
        before.grows_into(after),
        after.fits(),
{
    lemma_the_rest_still_fits(before, after);
    assert(before.object_fits(object));
    assert forall|i: int| 0 <= i < after.objects.len() implies #[trigger] after.object_fits(i) by {
        assert(before.object_fits(i));
        if i != object {
            lemma_slots_still_fit(before, after, i);
        } else {
            assert forall|j: int| 0 <= j < after.objects[i].properties.len() implies after.slot_fits(
                #[trigger] after.objects[i].properties[j],
            ) by {
                assert(before.slot_fits(after.objects[i].properties[j]));
            }
        }
    }
}

proof fn lemma_a_defined_property_fits(
    before: RealmView,
    object: int,
    key: Seq<char>,
    value: Value,
    attributes: Attributes,
)
    requires
        before.fits(),
        0 <= object < before.objects.len(),
        before.slot_fits(PropertyView { key, value, attributes }),
    ensures
        before.grows_into(before.with_own(object, key, value, attributes)),
        before.with_own(object, key, value, attributes).fits(),
{
    let after = before.with_own(object, key, value, attributes);
    let added = PropertyView { key, value, attributes };
    let properties = before.objects[object].properties;
    assert(before.object_fits(object));
    lemma_with_property_is_well_listed(properties, added);
    lemma_found_is_there(properties, key, 0);
    lemma_place(properties, key, 0);
    let listed = with_property(properties, added);
    assert forall|i: int| 0 <= i < listed.len() implies before.slot_fits(#[trigger] listed[i]) by {
        match find(properties, key) {
            Some(index) => {
                if i != index {
                    assert(before.slot_fits(properties[i]));
                }
            },
            None => {
                let place = place_from(properties, key, 0);
                if i < place {
                    assert(listed[i] == properties[i]);
                } else if i > place {
                    assert(listed[i] == properties[i - 1]);
                }
            },
        }
    }
    lemma_a_changed_object_fits(before, after, object);
}

/// A property that was defined is the one that is there, and every other property of every object is
/// as it was.
pub proof fn law_a_defined_property_is_the_one_that_is_there(
    realm: RealmView,
    object: usize,
    key: Seq<char>,
    value: Value,
    attributes: Attributes,
    other: usize,
    name: Seq<char>,
)
    requires
        realm.fits(),
        object < realm.objects.len(),
        other < realm.objects.len(),
    ensures
        ({
            let after = realm.with_own(object as int, key, value, attributes);
            &&& after.own(Value::Object(object), key) == Some((value, attributes))
            &&& other != object || name != key ==> after.own(Value::Object(other), name)
                == realm.own(Value::Object(other), name)
        }),
{
    assert(realm.object_fits(object as int));
    lemma_find_after_define(
        realm.objects[object as int].properties,
        PropertyView { key, value, attributes },
        name,
    );
}

/// Walking an object shows only what is enumerable, and shows the array indices first in numeric
/// order.
pub proof fn law_walking_shows_indices_first(realm: RealmView, object: usize)
    requires
        realm.fits(),
        object < realm.objects.len(),
    ensures
        ({
            let list = realm.walked(Value::Object(object))->0;
            &&& forall|i: int|
                0 <= i < list.len() ==> (#[trigger] list[i]).attributes.enumerable
            &&& well_listed(list)
        }),
{
    assert(realm.object_fits(object as int));
    lemma_shown_is_well_listed(realm.objects[object as int].properties);
}

proof fn lemma_shown_is_well_listed(properties: Seq<PropertyView>)
    requires
        well_listed(properties),
    ensures
        well_listed(shown(properties)),
        forall|i: int|
            0 <= i < shown(properties).len() ==> (#[trigger] shown(
                properties,
            )[i]).attributes.enumerable && properties.contains(shown(properties)[i]),
    decreases properties.len(),
{
    if properties.len() > 0 {
        let front = properties.drop_last();
        let last = properties.last();
        assert forall|i: int, j: int| 0 <= i < j < front.len() implies (
        #[trigger] front[i]).key != (#[trigger] front[j]).key && goes_before(
            front[i].key,
            front[j].key,
        ) by {
            assert(front[i] == properties[i]);
            assert(front[j] == properties[j]);
        }
        lemma_shown_is_well_listed(front);
        let before = shown(front);
        let list = shown(properties);
        assert forall|i: int| 0 <= i < before.len() implies properties.contains(
            #[trigger] before[i],
        ) && before[i].key != last.key && goes_before(before[i].key, last.key) by {
            let k = choose|k: int| 0 <= k < front.len() && front[k] == before[i];
            assert(properties[k] == before[i]);
            assert(properties[properties.len() - 1] == last);
        }
        if last.attributes.enumerable {
            assert(properties[properties.len() - 1] == last);
            assert forall|i: int, j: int| 0 <= i < j < list.len() implies (
            #[trigger] list[i]).key != (#[trigger] list[j]).key && goes_before(
                list[i].key,
                list[j].key,
            ) by {
                if j == before.len() {
                    assert(list[i] == before[i]);
                } else {
                    assert(list[i] == before[i]);
                    assert(list[j] == before[j]);
                }
            }
            assert forall|i: int| 0 <= i < list.len() implies (
            #[trigger] list[i]).attributes.enumerable && properties.contains(list[i]) by {
                if i < before.len() {
                    assert(list[i] == before[i]);
                }
            }
        }
    }
}

/// Reading a property finds it on the object itself, or else wherever reading it above the object
/// finds it, or nowhere when there is nothing above. One that is an accessor is refused by name.
pub proof fn law_reading_looks_at_the_object_and_then_above_it(
    realm: RealmView,
    object: usize,
    key: Seq<char>,
)
    requires
        realm.fits(),
        object < realm.objects.len(),
    ensures
        ({
            let this = Value::Object(object);
            let read = realm.looked_up(this, key);
            &&& realm.own(this, key) matches Some((held, attributes)) ==> read == if attributes.accessor {
                Err::<Option<Value>, ErrorView>(
                    ErrorView::Unsupported(
                        "reading '"@ + key
                            + "' here means calling a getter, which a function written in Rust cannot do yet"@,
                    ),
                )
            } else {
                Ok(Some(held))
            }
            &&& realm.own(this, key) is None ==> read == match realm.objects[object as int].prototype {
                Some(above) => realm.looked_up(Value::Object(above), key),
                None => Ok::<Option<Value>, ErrorView>(None),
            }
        }),
{
    assert(realm.object_fits(object as int));
}

/// A property is found by its key: what an object has under a key is what stands beside the first
/// place the key is at, and a key that is at no place is not there.
pub proof fn law_a_property_is_found_by_its_key(
    realm: RealmView,
    object: usize,
    key: Seq<char>,
    place: int,
)
    ensures
        ({
            let properties = realm.objects[object as int].properties;
            &&& 0 <= place < properties.len() && properties[place].key == key && (forall|k: int|
                0 <= k < place ==> (#[trigger] properties[k]).key != key) ==> realm.own(
                Value::Object(object),
                key,
            ) == Some((properties[place].value, properties[place].attributes))
            &&& (forall|k: int|
                0 <= k < properties.len() ==> (#[trigger] properties[k]).key != key) ==> realm.own(
                Value::Object(object),
                key,
            ) is None
        }),
{
    let properties = realm.objects[object as int].properties;
    lemma_found_is_there(properties, key, 0);
    if 0 <= place < properties.len() && properties[place].key == key && (forall|k: int|
        0 <= k < place ==> (#[trigger] properties[k]).key != key) {
        lemma_the_first_key(properties, key, 0, place);
    }
}

proof fn lemma_the_first_key(properties: Seq<PropertyView>, key: Seq<char>, from: int, place: int)
    requires
        0 <= from <= place < properties.len(),
        properties[place].key == key,
        forall|k: int| 0 <= k < place ==> (#[trigger] properties[k]).key != key,
    ensures
        find_from(properties, key, from) == Some(place),
    decreases place - from,
{
    if from < place {
        assert(properties[from].key != key);
        lemma_the_first_key(properties, key, from + 1, place);
    }
}

/// A key that is there keeps its place when it is defined again. A new key that is no array index goes
/// to the end, and a new array index goes behind the indices below it and in front of everything else.
pub proof fn law_where_a_property_is_put(properties: Seq<PropertyView>, added: PropertyView)
    requires
        well_listed(properties),
    ensures
        find(properties, added.key) matches Some(place) ==> with_property(properties, added)
            == properties.update(place, added) && properties[place].key == added.key,
        find(properties, added.key) is None && index_of_key(added.key) is None ==> with_property(
            properties,
            added,
        ) == properties.push(added),
        find(properties, added.key) is None && index_of_key(added.key) is Some ==> ({
            let place = place_from(properties, added.key, 0);
            &&& 0 <= place <= properties.len()
            &&& with_property(properties, added) == properties.insert(place, added)
            &&& forall|k: int|
                0 <= k < place ==> (index_of_key((#[trigger] properties[k]).key) matches Some(index)
                    && index < index_of_key(added.key)->0)
            &&& place < properties.len() ==> !(index_of_key(properties[place].key) matches Some(
                index,
            ) && index < index_of_key(added.key)->0)
        }),
{
    lemma_found_is_there(properties, added.key, 0);
    lemma_the_place(properties, added.key, 0);
    if find(properties, added.key) is None && index_of_key(added.key) is None {
        assert(properties.insert(properties.len() as int, added) =~= properties.push(added));
    }
}

proof fn lemma_the_place(properties: Seq<PropertyView>, key: Seq<char>, from: int)
    requires
        0 <= from <= properties.len(),
    ensures
        from <= place_from(properties, key, from) <= properties.len(),
        forall|k: int|
            from <= k < place_from(properties, key, from) ==> goes_before(
                (#[trigger] properties[k]).key,
                key,
            ),
        place_from(properties, key, from) < properties.len() ==> !goes_before(
            properties[place_from(properties, key, from)].key,
            key,
        ),
        index_of_key(key) is None ==> place_from(properties, key, from) == properties.len(),
    decreases properties.len() - from,
{
    if from < properties.len() && goes_before(properties[from].key, key) {
        lemma_the_place(properties, key, from + 1);
    }
}

/// A key is an array index when it is a number below 4294967295 as it is written in decimal, and no
/// other spelling of a number is one.
pub proof fn law_an_array_index_is_the_canonical_spelling(n: nat, key: Seq<char>)
    ensures
        n < 4294967295 ==> index_of_key(decimal(n)) == Some(n),
        n >= 4294967295 ==> index_of_key(decimal(n)) is None,
        index_of_key(key) matches Some(index) ==> index < 4294967295 && (forall|i: int|
            0 <= i < key.len() ==> 48 <= (#[trigger] key[i]) as int <= 57) && (key.len() > 1
            ==> key[0] as int != 48) && key.len() > 0,
{
    lemma_decimal_reads_back(n);
}

/// Walking shows what is enumerable, in order, and skips what is not.
pub proof fn law_walking_shows_what_is_enumerable(properties: Seq<PropertyView>, last: PropertyView)
    ensures
        shown(Seq::<PropertyView>::empty()) == Seq::<PropertyView>::empty(),
        last.attributes.enumerable ==> shown(properties.push(last)) == shown(properties).push(last),
        !last.attributes.enumerable ==> shown(properties.push(last)) == shown(properties),
{
    assert(properties.push(last).drop_last() =~= properties);
}

/// What counts as true: everything but `undefined`, `null`, `false`, either zero, what is not a number
/// and text with nothing in it.
pub proof fn law_what_counts_as_true(realm: RealmView, bits: u64, text: usize)
    ensures
        !realm.truthy(Value::Undefined),
        !realm.truthy(Value::Null),
        !realm.truthy(Value::Bool(false)),
        realm.truthy(Value::Bool(true)),
        realm.truthy(Value::Object(text)),
        realm.truthy(Value::Number { bits, text }) <==> bits != 0 && bits != 0x8000_0000_0000_0000
            && !(0x7FF0_0000_0000_0000 < bits < 0x8000_0000_0000_0000) && !(0xFFF0_0000_0000_0000
            < bits),
        realm.truthy(Value::Text(text)) <==> realm.texts[text as int].len() > 0,
{
}

/// When two values are the same: two numbers when their bit patterns are or neither is a number, two
/// texts when their characters are, and anything else only when it is the very value.
pub proof fn law_when_two_values_are_the_same(
    realm: RealmView,
    left: u64,
    right: u64,
    first: usize,
    second: usize,
)
    ensures
        ({
            let left_nan = 0x7FF0_0000_0000_0000 < left < 0x8000_0000_0000_0000
                || 0xFFF0_0000_0000_0000 < left;
            let right_nan = 0x7FF0_0000_0000_0000 < right < 0x8000_0000_0000_0000
                || 0xFFF0_0000_0000_0000 < right;
            &&& realm.same(
                Value::Number { bits: left, text: first },
                Value::Number { bits: right, text: second },
            ) <==> left == right || (left_nan && right_nan)
            &&& realm.same(Value::Text(first), Value::Text(second)) <==> realm.texts[first as int]
                == realm.texts[second as int]
            &&& realm.same(Value::Object(first), Value::Object(second)) <==> first == second
            &&& realm.same(Value::Undefined, Value::Undefined) && realm.same(
                Value::Null,
                Value::Null,
            ) && !realm.same(Value::Undefined, Value::Null)
            &&& forall|a: bool, b: bool| #[trigger]
                realm.same(Value::Bool(a), Value::Bool(b)) <==> a == b
            &&& !realm.same(Value::Number { bits: left, text: first }, Value::Text(second))
        }),
{
}

/// How the console shows a value: the words for the values that are words, a number as it converts but
/// for a negative zero, which shows its sign, text as it is, and an object as it was inspected.
pub proof fn law_how_the_console_shows_a_value(realm: RealmView, bits: u64, place: usize)
    ensures
        realm.display_text(Value::Undefined) == "undefined"@,
        realm.display_text(Value::Null) == "null"@,
        realm.display_text(Value::Bool(true)) == "true"@,
        realm.display_text(Value::Bool(false)) == "false"@,
        bits == 0x8000_0000_0000_0000 ==> realm.display_text(Value::Number { bits, text: place })
            == "-0"@,
        bits != 0x8000_0000_0000_0000 ==> realm.display_text(Value::Number { bits, text: place })
            == realm.number_text(bits, place),
        realm.display_text(Value::Text(place)) == realm.texts[place as int],
        realm.display_text(Value::Object(place)) == realm.objects[place as int].inspected,
{
}

/// What a number converts to: either zero to `0`, what is not a number and the infinities to their
/// names, and every other number, negative ones among them, to the text that came with it.
pub proof fn law_what_a_number_converts_to(realm: RealmView, bits: u64, place: usize)
    ensures
        bits == 0 || bits == 0x8000_0000_0000_0000 ==> realm.number_text(bits, place) == "0"@,
        0x7FF0_0000_0000_0000 < bits < 0x8000_0000_0000_0000 || 0xFFF0_0000_0000_0000 < bits
            ==> realm.number_text(bits, place) == "NaN"@,
        bits == 0x7FF0_0000_0000_0000 ==> realm.number_text(bits, place) == "Infinity"@,
        bits == 0xFFF0_0000_0000_0000 ==> realm.number_text(bits, place) == "-Infinity"@,
        0 < bits < 0x7FF0_0000_0000_0000 || 0x8000_0000_0000_0000 < bits < 0xFFF0_0000_0000_0000
            ==> realm.number_text(bits, place) == realm.texts[place as int],
{
}

/// A global is what it was bound to last, and binding one name changes no other.
pub proof fn law_a_global_is_what_it_was_bound_to_last(
    realm: RealmView,
    name: Seq<char>,
    value: Value,
    other: Seq<char>,
)
    ensures
        realm.with_global(name, value).bound(name) == Some(value),
        other != name ==> realm.with_global(name, value).bound(other) == realm.bound(other),
        realm.globals.len() == 0 ==> realm.bound(name) is None,
{
    let later = realm.with_global(name, value);
    lemma_earlier_bindings_stay(realm, later, other, realm.globals.len() as int);
}

proof fn lemma_earlier_bindings_stay(
    realm: RealmView,
    later: RealmView,
    name: Seq<char>,
    count: int,
)
    requires
        count <= realm.globals.len() <= later.globals.len(),
        forall|i: int| 0 <= i < realm.globals.len() ==> later.globals[i] == realm.globals[i],
    ensures
        later.global_among(name, count) == realm.global_among(name, count),
    decreases count,
{
    if count > 0 {
        lemma_earlier_bindings_stay(realm, later, name, count - 1);
    }
}

/// An argument that was not passed is `undefined`, a call on nothing is refused by the name of the
/// method, and a new object has nothing on it and inherits from what it was put below, which has to be
/// an object that is no function, or `null`.
pub proof fn law_what_a_call_is_given(
    realm: RealmView,
    args: Seq<Value>,
    index: int,
    value: Value,
    name: Seq<char>,
)
    requires
        0 <= index,
    ensures
        index < args.len() ==> argument(args, index) == args[index],
        index >= args.len() ==> argument(args, index) == Value::Undefined,
        receiver_of(Some(value), name) == Ok::<Value, ErrorView>(value),
        receiver_of(None, name) == Err::<Value, ErrorView>(
            ErrorView::Unsupported(
                name + " called on nothing needs globalThis, which is not supported yet"@,
            ),
        ),
        ({
            let (made, later) = realm.object_below(value);
            let accepted = value == Value::Null || realm.is_plain_object(value);
            &&& accepted ==> made == Ok::<Value, ErrorView>(
                Value::Object(realm.objects.len() as usize),
            ) && later.objects.len() == realm.objects.len() + 1
                && later.objects.last().properties.len() == 0 && later.objects.last().function is None
                && later.objects.last().prototype == (if value == Value::Null {
                None::<usize>
            } else {
                Some(value->Object_0)
            })
            &&& !accepted ==> later == realm && made == Err::<Value, ErrorView>(
                ErrorView::Type(
                    "Object prototype may only be an Object or null: "@ + realm.display_text(value),
                ),
            )
        }),
{
}

/// An object is a function when there is something to call behind it and an ordinary one when there is
/// not, and no other value is either. The Rust behind a function is the one it was made with.
pub proof fn law_what_a_function_is(realm: RealmView, object: usize, value: Value)
    requires
        object < realm.objects.len(),
    ensures
        realm.calls(Value::Object(object)) <==> realm.objects[object as int].function is Some,
        realm.is_plain_object(Value::Object(object)) <==> realm.objects[object as int].function is None,
        realm.objects[object as int].function matches Some(function) ==> realm.native_behind(
            Value::Object(object),
        ) == function.native,
        realm.objects[object as int].function is None ==> realm.native_behind(
            Value::Object(object),
        ) is None,
        !(value is Object) ==> !realm.calls(value) && !realm.is_plain_object(value)
            && realm.native_behind(value) is None && realm.above(value) is None && realm.walked(
            value,
        ) is None,
        realm.walked(Value::Object(object)) == Some(shown(realm.objects[object as int].properties)),
        realm.above(Value::Object(object)) == Some(
            match realm.objects[object as int].prototype {
                Some(above) => Value::Object(above),
                None => Value::Null,
            },
        ),
{
}

} // verus!
