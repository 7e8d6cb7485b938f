//! Entities as the dashboard sees them: an id, a state and attributes.
use crate::number::{Real32, Real64};
use crate::text::opt_text;
use vstd::prelude::*;
use vstd::string::*;

verus! {

/// An attribute's value.
#[derive(Debug)]
pub enum AttrValue {
    Null,
    Bool(bool),
    Unsigned(u64),
    Signed(i64),
    Float(Real64),
    Text(String),
    /// A list or a map.
    Nested,
}

/// What an attribute's value says.
pub enum AttrModel {
    Null,
    Bool(bool),
    Integer(int),
    Float(Real64),
    Text(Seq<char>),
    Nested,
}

impl View for AttrValue {
    type V = AttrModel;

    open spec fn view(&self) -> AttrModel {
        match self {
            AttrValue::Null => AttrModel::Null,
            AttrValue::Bool(b) => AttrModel::Bool(*b),
            AttrValue::Unsigned(u) => AttrModel::Integer(*u as int),
            AttrValue::Signed(i) => AttrModel::Integer(*i as int),
            AttrValue::Float(f) => AttrModel::Float(*f),
            AttrValue::Text(s) => AttrModel::Text(s@),
            AttrValue::Nested => AttrModel::Nested,
        }
    }
}

impl AttrModel {
    pub open spec fn text(self) -> Option<Seq<char>> {
        match self {
            AttrModel::Text(s) => Some(s),
            _ => None,
        }
    }

    pub open spec fn boolean(self) -> Option<bool> {
        match self {
            AttrModel::Bool(b) => Some(b),
            _ => None,
        }
    }

    /// A whole percentage: an integer of 0..=100 as it is, a float of that range
    /// rounded to the nearest integer.
    pub open spec fn percent(self) -> Option<int> {
        match self {
            AttrModel::Integer(n) => if 0 <= n <= 100 {
                Some(n)
            } else {
                None
            },
            AttrModel::Float(f) => if f.within_percent() {
                Some(
                    if f.significand() == 0 {
                        0
                    } else {
                        f.rounded()
                    },
                )
            } else {
                None
            },
            _ => None,
        }
    }

    /// A finite number in single precision, infinite where it is beyond the range of
    /// single precision. An integer passes through double precision on its way.
    pub open spec fn narrowed(self) -> Option<Real32> {
        match self {
            AttrModel::Integer(n) => Some(Real64::nearest_integer(n).narrowed()),
            AttrModel::Float(f) => if f.finite() {
                Some(f.narrowed())
            } else {
                None
            },
            _ => None,
        }
    }

    /// A numeric reading: a number that is finite in single precision.
    pub open spec fn reading(self) -> Option<Real32> {
        match self.narrowed() {
            Some(v) => if v.finite() {
                Some(v)
            } else {
                None
            },
            None => None,
        }
    }

    /// An integer that fits 32 unsigned bits.
    pub open spec fn bit_mask(self) -> Option<int> {
        match self {
            AttrModel::Integer(n) => if 0 <= n <= u32::MAX {
                Some(n)
            } else {
                None
            },
            _ => None,
        }
    }
}

impl AttrValue {
    pub fn as_text(&self) -> (r: Option<String>)
        ensures
            opt_text(r) == self@.text(),
            *self matches AttrValue::Text(s) ==> r == Some(s),
            !(*self is Text) ==> r is None,
    {
        match self {
            AttrValue::Text(s) => Some(s.clone()),
            _ => None,
        }
    }

    pub fn as_bool(&self) -> (r: Option<bool>)
        ensures
            r == self@.boolean(),
            *self matches AttrValue::Bool(b) ==> r == Some(b),
            !(*self is Bool) ==> r is None,
    {
        match self {
            AttrValue::Bool(b) => Some(*b),
            _ => None,
        }
    }

    pub fn as_percent(&self) -> (r: Option<u8>)
        ensures
            r is Some <==> self@.percent() is Some,
            r matches Some(p) ==> Some(p as int) == self@.percent() && p <= 100,
            *self matches AttrValue::Unsigned(u) ==> if u <= 100 {
                r == Some(u as u8)
            } else {
                r is None
            },
            *self matches AttrValue::Signed(i) ==> if 0 <= i <= 100 {
                r == Some(i as u8)
            } else {
                r is None
            },
            *self is Null || *self is Bool || *self is Text || *self is Nested ==> r is None,
    {
        match self {
            AttrValue::Unsigned(u) => if *u <= 100 {
                Some(*u as u8)
            } else {
                None
            },
            AttrValue::Signed(i) => if 0 <= *i && *i <= 100 {
                Some(*i as u8)
            } else {
                None
            },
            AttrValue::Float(f) => f.to_percent(),
            _ => None,
        }
    }

    pub fn as_reading(&self) -> (r: Option<Real32>)
        ensures
            r == self@.reading(),
            r matches Some(v) ==> v.finite(),
            *self is Null || *self is Bool || *self is Text || *self is Nested ==> r is None,
    {
        match self.as_narrowed() {
            Some(v) => if v.is_finite() {
                Some(v)
            } else {
                None
            },
            None => None,
        }
    }

    pub fn as_narrowed(&self) -> (r: Option<Real32>)
        ensures
            r == self@.narrowed(),
            *self is Unsigned || *self is Signed ==> r is Some,
            *self matches AttrValue::Float(f) ==> (r is Some <==> f.finite()),
            *self is Null || *self is Bool || *self is Text || *self is Nested ==> r is None,
    {
        match self {
            AttrValue::Unsigned(u) => Some(Real64::from_natural(*u).narrow()),
            AttrValue::Signed(i) => Some(Real64::from_integer(*i).narrow()),
            AttrValue::Float(f) => if f.is_finite() {
                Some(f.narrow())
            } else {
                None
            },
            _ => None,
        }
    }

    pub fn as_bit_mask(&self) -> (r: Option<u32>)
        ensures
            r is Some <==> self@.bit_mask() is Some,
            r matches Some(m) ==> Some(m as int) == self@.bit_mask(),
            *self matches AttrValue::Unsigned(u) ==> if u <= u32::MAX {
                r == Some(u as u32)
            } else {
                r is None
            },
            *self matches AttrValue::Signed(i) ==> if 0 <= i <= u32::MAX {
                r == Some(i as u32)
            } else {
                r is None
            },
            !(*self is Unsigned || *self is Signed) ==> r is None,
    {
        match self {
            AttrValue::Unsigned(u) => if *u <= 0xffff_ffff {
                Some(*u as u32)
            } else {
                None
            },
            AttrValue::Signed(i) => if 0 <= *i && *i <= 0xffff_ffff {
                Some(*i as u32)
            } else {
                None
            },
            _ => None,
        }
    }
}

/// A named attribute.
#[derive(Debug)]
pub struct Attribute {
    pub key: String,
    pub value: AttrValue,
}

/// The attributes by name. Where a name occurs twice the later entry counts.
pub open spec fn attribute_map(entries: Seq<Attribute>) -> Map<Seq<char>, AttrModel>
    decreases entries.len(),
{
    if entries.len() == 0 {
        Map::empty()
    } else {
        attribute_map(entries.drop_last()).insert(entries.last().key@, entries.last().value@)
    }
}

/// Entry `i` settles the attribute `key`: it is the last one of that name.
pub open spec fn settles(entries: Seq<Attribute>, key: Seq<char>, i: int) -> bool {
    &&& 0 <= i < entries.len()
    &&& entries[i].key@ == key
    &&& forall|j: int| i < j < entries.len() ==> (#[trigger] entries[j]).key@ != key
}

/// An attribute has the value that the last entry of its name gives.
pub proof fn last_entry_of_a_name_counts(entries: Seq<Attribute>, key: Seq<char>, i: int)
    requires
        settles(entries, key, i),
    ensures
        attribute_map(entries).contains_key(key),
        attribute_map(entries)[key] == entries[i].value@,
    decreases entries.len(),
{
    if i < entries.len() - 1 {
        let rest = entries.drop_last();
        assert forall|j: int| i < j < rest.len() implies (#[trigger] rest[j]).key@ != key by {
            assert(rest[j] == entries[j]);
        }
        last_entry_of_a_name_counts(rest, key, i);
        assert(entries[entries.len() - 1].key@ != key);
    }
}

/// There is no attribute of a name that no entry has.
pub proof fn unnamed_attribute_is_absent(entries: Seq<Attribute>, key: Seq<char>)
    requires
        forall|i: int| 0 <= i < entries.len() ==> (#[trigger] entries[i]).key@ != key,
    ensures
        !attribute_map(entries).contains_key(key),
    decreases entries.len(),
{
    if entries.len() > 0 {
        let rest = entries.drop_last();
        assert forall|i: int| 0 <= i < rest.len() implies (#[trigger] rest[i]).key@ != key by {
            assert(rest[i] == entries[i]);
        }
        unnamed_attribute_is_absent(rest, key);
        assert(entries[entries.len() - 1].key@ != key);
    }
}

/// The attributes of an entity.
#[derive(Debug)]
pub struct Attributes {
    pub entries: Vec<Attribute>,
}

impl View for Attributes {
    type V = Map<Seq<char>, AttrModel>;

    open spec fn view(&self) -> Map<Seq<char>, AttrModel> {
        attribute_map(self.entries@)
    }
}

impl Attributes {
    /// No attributes.
    pub fn new() -> (r: Attributes)
        ensures
            r@ == Map::<Seq<char>, AttrModel>::empty(),
    {
        Attributes { entries: Vec::new() }
    }

    /// Sets an attribute.
    pub fn insert(&mut self, key: String, value: AttrValue)
        ensures
            final(self)@ == old(self)@.insert(key@, value@),
    {
        self.entries.push(Attribute { key, value });
        proof {
            assert(self.entries@.drop_last() =~= old(self).entries@);
        }
    }

    /// The value of an attribute.
    pub fn get(&self, key: &str) -> (r: Option<&AttrValue>)
        ensures
            r is Some <==> self@.contains_key(key@),
            r matches Some(v) ==> v@ == self@[key@],
            r is None <==> forall|i: int|
                0 <= i < self.entries@.len() ==> (#[trigger] self.entries@[i]).key@ != key@,
            r matches Some(v) ==> exists|i: int|
                0 <= i < self.entries@.len() && *v == (#[trigger] self.entries@[i]).value
                    && settles(self.entries@, key@, i),
    {
        let wanted: String = key.to_owned();
        let mut i: usize = self.entries.len();
        assert(self.entries@.take(i as int) =~= self.entries@);
        while i > 0
            invariant
                i <= self.entries@.len(),
                wanted@ == key@,
                self@.contains_key(key@) <==> attribute_map(
                    self.entries@.take(i as int),
                ).contains_key(key@),
                self@.contains_key(key@) ==> self@[key@] == attribute_map(
                    self.entries@.take(i as int),
                )[key@],
                forall|j: int|
                    i <= j < self.entries@.len() ==> (#[trigger] self.entries@[j]).key@ != key@,
            decreases i,
        {
            proof {
                let part = self.entries@.take(i as int);
                assert(part.drop_last() =~= self.entries@.take(i - 1));
                assert(part.last() == self.entries@[i - 1]);
            }
            i = i - 1;
            if self.entries[i].key == wanted {
                assert(settles(self.entries@, key@, i as int));
                return Some(&self.entries[i].value);
            }
        }
        None
    }
}

/// The id of an entity, such as `light.kitchen`.
#[derive(Debug, PartialEq, Eq, Hash)]
pub struct EntityId {
    pub text: String,
}

impl View for EntityId {
    type V = Seq<char>;

    open spec fn view(&self) -> Seq<char> {
        self.text@
    }
}

impl Clone for EntityId {
    fn clone(&self) -> (r: EntityId)
        ensures
            r == *self,
    {
        EntityId { text: self.text.clone() }
    }
}

impl EntityId {
    /// The id that reads `text`.
    pub fn from(text: &str) -> (r: EntityId)
        ensures
            r@ == text@,
    {
        EntityId { text: text.to_owned() }
    }

    pub fn as_str(&self) -> (r: &str)
        ensures
            r@ == self@,
    {
        self.text.as_str()
    }

    /// Whether both ids read the same.
    pub fn same(&self, other: &EntityId) -> (r: bool)
        ensures
            r == (self@ == other@),
    {
        self.text == other.text
    }
}

/// What an entity is, as far as its default icon depends on it.
#[derive(Clone, Copy, Debug, PartialEq, Eq, Structural)]
pub enum EntityKind {
    Light,
    Sensor,
    Other,
}

/// Whether an id lies in a domain, which is given with its final dot.
pub open spec fn in_domain(id: Seq<char>, domain: Seq<char>) -> bool {
    domain.len() <= id.len() && id.take(domain.len() as int) == domain
}

/// The kind that an id's domain tells.
pub open spec fn kind_of_id(id: Seq<char>) -> EntityKind {
    if in_domain(id, "light."@) {
        EntityKind::Light
    } else if in_domain(id, "sensor."@) {
        EntityKind::Sensor
    } else {
        EntityKind::Other
    }
}

impl EntityKind {
    /// The kind of the entity with this id.
    pub fn from(id: &EntityId) -> (r: EntityKind)
        ensures
            r == kind_of_id(id@),
    {
        if has_domain(id, "light.") {
            EntityKind::Light
        } else if has_domain(id, "sensor.") {
            EntityKind::Sensor
        } else {
            EntityKind::Other
        }
    }
}

fn has_domain(id: &EntityId, domain: &str) -> (r: bool)
    ensures
        r == in_domain(id@, domain@),
{
    let text: &str = id.as_str();
    let n: usize = domain.unicode_len();
    if text.unicode_len() < n {
        return false;
    }
    let head: String = text.substring_char(0, n).to_owned();
    let wanted: String = domain.to_owned();
    assert(head@ =~= id@.take(n as int));
    head == wanted
}

/// An entity of the home.
#[derive(Debug)]
pub struct Entity {
    pub id: EntityId,
    pub state: String,
    /// The state read as a decimal number, where it reads as one.
    pub state_number: Option<Real64>,
    pub attributes: Attributes,
}

/// What an entity says.
pub struct EntityModel {
    pub id: Seq<char>,
    pub state: Seq<char>,
    pub state_number: Option<Real64>,
    pub attributes: Map<Seq<char>, AttrModel>,
}

impl View for Entity {
    type V = EntityModel;

    open spec fn view(&self) -> EntityModel {
        EntityModel {
            id: self.id@,
            state: self.state@,
            state_number: self.state_number,
            attributes: self.attributes@,
        }
    }
}

impl EntityModel {
    pub open spec fn has(self, key: Seq<char>) -> bool {
        self.attributes.contains_key(key)
    }

    pub open spec fn text(self, key: Seq<char>) -> Option<Seq<char>> {
        if self.has(key) {
            self.attributes[key].text()
        } else {
            None
        }
    }

    pub open spec fn boolean(self, key: Seq<char>) -> Option<bool> {
        if self.has(key) {
            self.attributes[key].boolean()
        } else {
            None
        }
    }

    pub open spec fn percent(self, key: Seq<char>) -> Option<int> {
        if self.has(key) {
            self.attributes[key].percent()
        } else {
            None
        }
    }

    pub open spec fn reading(self, key: Seq<char>) -> Option<Real32> {
        if self.has(key) {
            self.attributes[key].reading()
        } else {
            None
        }
    }

    pub open spec fn narrowed(self, key: Seq<char>) -> Option<Real32> {
        if self.has(key) {
            self.attributes[key].narrowed()
        } else {
            None
        }
    }

    pub open spec fn bit_mask(self, key: Seq<char>) -> Option<int> {
        if self.has(key) {
            self.attributes[key].bit_mask()
        } else {
            None
        }
    }

    /// The two states that Home Assistant gives an entity it cannot reach.
    pub open spec fn out_of_reach(self) -> bool {
        self.state == "unavailable"@ || self.state == "unknown"@
    }
}

impl Entity {
    /// The `friendly_name` attribute, where it is text.
    pub fn friendly_name(&self) -> (r: Option<String>)
        ensures
            opt_text(r) == self@.text("friendly_name"@),
    {
        self.read_text("friendly_name")
    }

    /// An attribute that is text.
    pub fn read_text(&self, key: &str) -> (r: Option<String>)
        ensures
            opt_text(r) == self@.text(key@),
    {
        match self.attributes.get(key) {
            Some(v) => v.as_text(),
            None => None,
        }
    }

    /// An attribute that is true or false.
    pub fn read_bool(&self, key: &str) -> (r: Option<bool>)
        ensures
            r == self@.boolean(key@),
    {
        match self.attributes.get(key) {
            Some(v) => v.as_bool(),
            None => None,
        }
    }

    /// An attribute that is a percentage.
    pub fn read_percent(&self, key: &str) -> (r: Option<u8>)
        ensures
            r is Some <==> self@.percent(key@) is Some,
            r matches Some(p) ==> Some(p as int) == self@.percent(key@) && p <= 100,
    {
        match self.attributes.get(key) {
            Some(v) => v.as_percent(),
            None => None,
        }
    }

    /// An attribute that is a finite number. A number beyond single precision counts
    /// as absent.
    pub fn read_number(&self, key: &str) -> (r: Option<Real32>)
        ensures
            r == self@.reading(key@),
    {
        match self.attributes.get(key) {
            Some(v) => v.as_reading(),
            None => None,
        }
    }

    /// An attribute that is a finite number, infinite where it is beyond single
    /// precision.
    pub fn read_narrowed(&self, key: &str) -> (r: Option<Real32>)
        ensures
            r == self@.narrowed(key@),
    {
        match self.attributes.get(key) {
            Some(v) => v.as_narrowed(),
            None => None,
        }
    }

    /// An attribute that is a bit mask.
    pub fn read_bit_mask(&self, key: &str) -> (r: Option<u32>)
        ensures
            r is Some <==> self@.bit_mask(key@) is Some,
            r matches Some(m) ==> Some(m as int) == self@.bit_mask(key@),
    {
        match self.attributes.get(key) {
            Some(v) => v.as_bit_mask(),
            None => None,
        }
    }

    /// Whether the state is `unavailable` or `unknown`.
    pub fn is_out_of_reach(&self) -> (r: bool)
        ensures
            r == self@.out_of_reach(),
            r <==> (self.state@ == "unavailable"@ || self.state@ == "unknown"@),
    {
        crate::text::reads(&self.state, "unavailable") || crate::text::reads(&self.state, "unknown")
    }
}

/// An entity shows its own fields.
pub proof fn entity_is_seen_as_it_is(e: Entity)
    ensures
        e@.id == e.id.text@,
        e@.state == e.state@,
        e@.state_number == e.state_number,
{
}

/// The text of an attribute is what its last entry holds, where that is text.
pub proof fn text_is_that_of_the_last_entry(e: Entity, key: Seq<char>, i: int)
    requires
        settles(e.attributes.entries@, key, i),
    ensures
        e.attributes.entries@[i].value matches AttrValue::Text(s) ==> e@.text(key) == Some(s@),
        !(e.attributes.entries@[i].value is Text) ==> e@.text(key) is None,
        e.attributes.entries@[i].value matches AttrValue::Bool(b) ==> e@.boolean(key) == Some(b),
        !(e.attributes.entries@[i].value is Bool) ==> e@.boolean(key) is None,
{
    last_entry_of_a_name_counts(e.attributes.entries@, key, i);
}

/// A whole number is taken as a percentage or a bit mask where it is one, and as it is.
pub proof fn whole_number_is_read_as_it_is(e: Entity, key: Seq<char>, i: int, n: int)
    requires
        settles(e.attributes.entries@, key, i),
        e.attributes.entries@[i].value matches AttrValue::Unsigned(u) && u == n || (
        e.attributes.entries@[i].value matches AttrValue::Signed(s) && s == n),
    ensures
        0 <= n <= 100 ==> e@.percent(key) == Some(n),
        !(0 <= n <= 100) ==> e@.percent(key) is None,
        0 <= n <= 0xffff_ffff ==> e@.bit_mask(key) == Some(n),
        !(0 <= n <= 0xffff_ffff) ==> e@.bit_mask(key) is None,
        e@.text(key) is None,
        e@.boolean(key) is None,
{
    last_entry_of_a_name_counts(e.attributes.entries@, key, i);
}

/// Nothing is read of an attribute that the entity does not have.
pub proof fn absent_attribute_is_not_read(e: Entity, key: Seq<char>)
    requires
        forall|i: int|
            0 <= i < e.attributes.entries@.len() ==> (
            #[trigger] e.attributes.entries@[i]).key@ != key,
    ensures
        e@.text(key) is None,
        e@.boolean(key) is None,
        e@.percent(key) is None,
        e@.reading(key) is None,
        e@.narrowed(key) is None,
        e@.bit_mask(key) is None,
{
    unnamed_attribute_is_absent(e.attributes.entries@, key);
}

/// The part of an id up to its dot tells the kind, whatever follows.
pub proof fn kind_follows_the_domain(id: Seq<char>, rest: Seq<char>)
    ensures
        id == "light."@ + rest ==> kind_of_id(id) == EntityKind::Light,
        id == "sensor."@ + rest ==> kind_of_id(id) == EntityKind::Sensor,
{
    reveal_strlit("light.");
    reveal_strlit("sensor.");
    assert(("light."@ + rest).take(6) =~= "light."@);
    assert(("sensor."@ + rest).take(7) =~= "sensor."@);
    if id == "sensor."@ + rest {
        assert(id[0] == 's');
        if in_domain(id, "light."@) {
            assert(id.take(6)[0] == 'l');
        }
    }
}

/// An id has the kind of a light or a sensor only by its domain.
pub proof fn kind_needs_the_domain(id: Seq<char>)
    ensures
        kind_of_id(id) == EntityKind::Light ==> exists|rest: Seq<char>| id == "light."@ + rest,
        kind_of_id(id) == EntityKind::Sensor ==> exists|rest: Seq<char>| id == "sensor."@ + rest,
{
    reveal_strlit("light.");
    reveal_strlit("sensor.");
    if kind_of_id(id) == EntityKind::Light {
        assert(id =~= id.take(6) + id.skip(6));
        assert(id == "light."@ + id.skip(6));
    }
    if kind_of_id(id) == EntityKind::Sensor {
        assert(id =~= id.take(7) + id.skip(7));
        assert(id == "sensor."@ + id.skip(7));
    }
}

/// A number is read from the last entry of its attribute, whatever else the entity
/// says.
pub proof fn number_is_that_of_the_last_entry(e: Entity, key: Seq<char>, i: int)
    requires
        settles(e.attributes.entries@, key, i),
    ensures
        e.attributes.entries@[i].value matches AttrValue::Float(f) ==> {
            &&& e@.percent(key) == AttrModel::Float(f).percent()
            &&& e@.reading(key) == AttrModel::Float(f).reading()
            &&& e@.narrowed(key) == AttrModel::Float(f).narrowed()
            &&& e@.bit_mask(key) is None
        },
        e.attributes.entries@[i].value matches AttrValue::Unsigned(u) ==> {
            &&& e@.reading(key) == AttrModel::Integer(u as int).reading()
            &&& e@.narrowed(key) == AttrModel::Integer(u as int).narrowed()
        },
        e.attributes.entries@[i].value matches AttrValue::Signed(n) ==> {
            &&& e@.reading(key) == AttrModel::Integer(n as int).reading()
            &&& e@.narrowed(key) == AttrModel::Integer(n as int).narrowed()
        },
        e.attributes.entries@[i].value is Text || e.attributes.entries@[i].value is Bool
            || e.attributes.entries@[i].value is Null || e.attributes.entries@[i].value is Nested
            ==> {
            &&& e@.percent(key) is None
            &&& e@.reading(key) is None
            &&& e@.narrowed(key) is None
            &&& e@.bit_mask(key) is None
        },
{
    last_entry_of_a_name_counts(e.attributes.entries@, key, i);
}

} // verus!
