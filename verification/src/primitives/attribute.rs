use vstd::prelude::*;

verus! {

/// One value of an attribute.
#[derive(Debug, PartialEq)]
pub enum AttributeValue {
    Boolean(bool),
    Integer(i64),
    String(String),
}

/// What an [`AttributeValue`] holds.
pub enum AttributeValueView {
    Boolean(bool),
    Integer(i64),
    String(Seq<char>),
}

impl View for AttributeValue {
    type V = AttributeValueView;

    open spec fn view(&self) -> AttributeValueView {
        match self {
            AttributeValue::Boolean(b) => AttributeValueView::Boolean(*b),
            AttributeValue::Integer(i) => AttributeValueView::Integer(*i),
            AttributeValue::String(s) => AttributeValueView::String(s@),
        }
    }
}

impl Clone for AttributeValue {
    fn clone(&self) -> (r: Self)
        ensures
            r@ == self@,
    {
        match self {
            AttributeValue::Boolean(b) => AttributeValue::Boolean(*b),
            AttributeValue::Integer(i) => AttributeValue::Integer(*i),
            AttributeValue::String(s) => AttributeValue::String(s.clone()),
        }
    }
}

impl AttributeValue {
    /// A string value.
    pub fn string(text: &str) -> (r: Self)
        ensures
            r@ == AttributeValueView::String(text@),
    {
        AttributeValue::String(text.to_string())
    }

    /// The text of a string value, `None` for the other variants.
    pub fn as_string(&self) -> (r: Option<String>)
        ensures
            match self@ {
                AttributeValueView::String(s) => r is Some && r->Some_0@ == s,
                _ => r is None,
            },
    {
        match self {
            AttributeValue::String(s) => Some(s.clone()),
            _ => None,
        }
    }
}

/// The views of a sequence of values, one for one.
pub open spec fn value_views(values: Seq<AttributeValue>) -> Seq<AttributeValueView> {
    values.map_values(|v: AttributeValue| v@)
}

/// Copies a list of values.
pub fn clone_values(values: &Vec<AttributeValue>) -> (r: Vec<AttributeValue>)
    ensures
        value_views(r@) == value_views(values@),
{
    let mut out: Vec<AttributeValue> = Vec::new();
    let mut i: usize = 0;
    while i < values.len()
        invariant
            i <= values.len(),
            out.len() == i,
            forall|j: int| 0 <= j < i ==> out@[j]@ == values@[j]@,
        decreases values.len() - i,
    {
        out.push(values[i].clone());
        i += 1;
    }
    assert(value_views(out@) =~= value_views(values@));
    out
}

/// A named value list under a namespace: the unit that frames carry and that
/// the attribute store keeps.
#[derive(Debug, PartialEq)]
pub struct Attribute {
    pub namespace: String,
    pub name: String,
    pub values: Vec<AttributeValue>,
    pub hint: Option<String>,
    pub is_persistent: bool,
    pub is_hidden: bool,
}

/// What an [`Attribute`] holds.
pub struct AttributeView {
    pub namespace: Seq<char>,
    pub name: Seq<char>,
    pub values: Seq<AttributeValueView>,
    pub hint: Option<Seq<char>>,
    pub is_persistent: bool,
    pub is_hidden: bool,
}

impl AttributeView {
    /// The pair that identifies the attribute.
    pub open spec fn key(self) -> (Seq<char>, Seq<char>) {
        (self.namespace, self.name)
    }
}

impl View for Attribute {
    type V = AttributeView;

    open spec fn view(&self) -> AttributeView {
        AttributeView {
            namespace: self.namespace@,
            name: self.name@,
            values: value_views(self.values@),
            hint: match self.hint {
                Some(h) => Some(h@),
                None => None,
            },
            is_persistent: self.is_persistent,
            is_hidden: self.is_hidden,
        }
    }
}

impl Clone for Attribute {
    fn clone(&self) -> (r: Self)
        ensures
            r@ == self@,
    {
        let hint = match &self.hint {
            Some(h) => Some(h.clone()),
            None => None,
        };
        Attribute {
            namespace: self.namespace.clone(),
            name: self.name.clone(),
            values: clone_values(&self.values),
            hint,
            is_persistent: self.is_persistent,
            is_hidden: self.is_hidden,
        }
    }
}

impl Attribute {
    /// An attribute with every field given.
    pub fn new(
        namespace: &str,
        name: &str,
        values: Vec<AttributeValue>,
        hint: &Option<&str>,
        is_persistent: bool,
        is_hidden: bool,
    ) -> (r: Self)
        ensures
            r@ == (AttributeView {
                namespace: namespace@,
                name: name@,
                values: value_views(values@),
                hint: match *hint {
                    Some(h) => Some(h@),
                    None => None,
                },
                is_persistent,
                is_hidden,
            }),
    {
        let hint = match *hint {
            Some(h) => Some(h.to_string()),
            None => None,
        };
        Attribute {
            namespace: namespace.to_string(),
            name: name.to_string(),
            values,
            hint,
            is_persistent,
            is_hidden,
        }
    }

    /// An attribute that outlives serialization.
    pub fn persistent(
        namespace: &str,
        name: &str,
        values: Vec<AttributeValue>,
        hint: &Option<&str>,
        is_hidden: bool,
    ) -> (r: Self)
        ensures
            r@.namespace == namespace@,
            r@.name == name@,
            r@.values == value_views(values@),
            r@.hint == match *hint {
                Some(h) => Some(h@),
                None => None::<Seq<char>>,
            },
            r@.is_persistent,
            r@.is_hidden == is_hidden,
    {
        Attribute::new(namespace, name, values, hint, true, is_hidden)
    }

    /// An attribute that is dropped on serialization.
    pub fn temporary(
        namespace: &str,
        name: &str,
        values: Vec<AttributeValue>,
        hint: &Option<&str>,
        is_hidden: bool,
    ) -> (r: Self)
        ensures
            r@.namespace == namespace@,
            r@.name == name@,
            r@.values == value_views(values@),
            r@.hint == match *hint {
                Some(h) => Some(h@),
                None => None::<Seq<char>>,
            },
            !r@.is_persistent,
            r@.is_hidden == is_hidden,
    {
        Attribute::new(namespace, name, values, hint, false, is_hidden)
    }

    /// Whether the attribute is the one that `namespace` and `name` identify.
    pub fn has_key(&self, namespace: &str, name: &str) -> (r: bool)
        ensures
            r == (self@.key() == (namespace@, name@)),
    {
        let ns = namespace.to_string();
        let nm = name.to_string();
        self.namespace == ns && self.name == nm
    }
}

/// The views of a sequence of attributes, one for one.
pub open spec fn attribute_views(attributes: Seq<Attribute>) -> Seq<AttributeView> {
    attributes.map_values(|a: Attribute| a@)
}

/// Copies a list of attributes.
pub fn clone_attributes(attributes: &Vec<Attribute>) -> (r: Vec<Attribute>)
    ensures
        attribute_views(r@) == attribute_views(attributes@),
{
    let mut out: Vec<Attribute> = Vec::new();
    let mut i: usize = 0;
    while i < attributes.len()
        invariant
            i <= attributes.len(),
            out.len() == i,
            forall|j: int| 0 <= j < i ==> out@[j]@ == attributes@[j]@,
        decreases attributes.len() - i,
    {
        out.push(attributes[i].clone());
        i += 1;
    }
    assert(attribute_views(out@) =~= attribute_views(attributes@));
    out
}

/// The smallest index at or after `from` whose attribute has the key, or the
/// length of the list where there is none.
pub open spec fn first_match(
    attributes: Seq<AttributeView>,
    key: (Seq<char>, Seq<char>),
    from: int,
) -> int
    decreases attributes.len() - from,
{
    if from < 0 || from >= attributes.len() {
        attributes.len() as int
    } else if attributes[from].key() == key {
        from
    } else {
        first_match(attributes, key, from + 1)
    }
}

/// `first_match` stays within the list, hits the key where it is inside, and
/// passes over nothing that has the key.
pub proof fn lemma_first_match(
    attributes: Seq<AttributeView>,
    key: (Seq<char>, Seq<char>),
    from: int,
)
    requires
        0 <= from <= attributes.len(),
    ensures
        from <= first_match(attributes, key, from) <= attributes.len(),
        first_match(attributes, key, from) < attributes.len() ==> attributes[first_match(
            attributes,
            key,
            from,
        )].key() == key,
        forall|j: int|
            from <= j < first_match(attributes, key, from) ==> (#[trigger] attributes[j]).key()
                != key,
    decreases attributes.len() - from,
{
    if from < attributes.len() && attributes[from].key() != key {
        lemma_first_match(attributes, key, from + 1);
    }
}

/// Whether no key occurs twice in the list.
pub open spec fn distinct_keys(attributes: Seq<AttributeView>) -> bool {
    forall|i: int, j: int|
        0 <= i < j < attributes.len() ==> (#[trigger] attributes[i]).key()
            != (#[trigger] attributes[j]).key()
}

/// Setting an attribute on a list in which no key occurs twice gives such a
/// list again.
pub proof fn lemma_put_keeps_distinct(attributes: Seq<AttributeView>, attribute: AttributeView)
    requires
        distinct_keys(attributes),
    ensures
        distinct_keys(put_attribute(attributes, attribute)),
{
    lemma_first_match(attributes, attribute.key(), 0);
    let at = first_match(attributes, attribute.key(), 0);
    let after = put_attribute(attributes, attribute);
    assert forall|i: int, j: int| 0 <= i < j < after.len() implies (#[trigger] after[i]).key() != (
    #[trigger] after[j]).key() by {
        if at < attributes.len() {
            assert(after[i].key() == attributes[i].key());
            assert(after[j].key() == attributes[j].key());
        } else {
            if j < attributes.len() {
                assert(after[i] == attributes[i] && after[j] == attributes[j]);
            } else {
                assert(after[i] == attributes[i]);
            }
        }
    }
}

/// Taking an element out of a list in which no key occurs twice gives such
/// a list again.
pub proof fn lemma_remove_keeps_distinct(attributes: Seq<AttributeView>, at: int)
    requires
        distinct_keys(attributes),
        0 <= at < attributes.len(),
    ensures
        distinct_keys(attributes.remove(at)),
{
    let after = attributes.remove(at);
    assert forall|i: int, j: int| 0 <= i < j < after.len() implies (#[trigger] after[i]).key() != (
    #[trigger] after[j]).key() by {
        let a = if i < at { i } else { i + 1 };
        let b = if j < at { j } else { j + 1 };
        assert(after[i] == attributes[a]);
        assert(after[j] == attributes[b]);
    }
}

/// The attribute list after `attribute` was set: it takes the place of the
/// first attribute with its key, or goes to the end.
pub open spec fn put_attribute(
    attributes: Seq<AttributeView>,
    attribute: AttributeView,
) -> Seq<AttributeView> {
    let at = first_match(attributes, attribute.key(), 0);
    if at < attributes.len() {
        attributes.update(at, attribute)
    } else {
        attributes.push(attribute)
    }
}

/// The attribute under the key, if the list has one.
pub open spec fn lookup_attribute(
    attributes: Seq<AttributeView>,
    key: (Seq<char>, Seq<char>),
) -> Option<AttributeView> {
    let at = first_match(attributes, key, 0);
    if at < attributes.len() {
        Some(attributes[at])
    } else {
        None
    }
}

/// The index of the first attribute of the list with the key, or the length
/// of the list where there is none.
pub fn position_of(attributes: &Vec<Attribute>, namespace: &str, name: &str) -> (r: usize)
    ensures
        r == first_match(attribute_views(attributes@), (namespace@, name@), 0),
        r <= attributes.len(),
{
    let ghost views = attribute_views(attributes@);
    let mut i: usize = 0;
    while i < attributes.len()
        invariant
            i <= attributes.len(),
            views == attribute_views(attributes@),
            first_match(views, (namespace@, name@), 0) == first_match(
                views,
                (namespace@, name@),
                i as int,
            ),
        decreases attributes.len() - i,
    {
        if attributes[i].has_key(namespace, name) {
            return i;
        }
        i += 1;
    }
    i
}

/// A copy of the attribute of the list under the key.
pub fn find_attribute(attributes: &Vec<Attribute>, namespace: &str, name: &str) -> (r: Option<
    Attribute,
>)
    ensures
        match r {
            Some(a) => lookup_attribute(attribute_views(attributes@), (namespace@, name@)) == Some(
                a@,
            ),
            None => lookup_attribute(attribute_views(attributes@), (namespace@, name@)) is None,
        },
{
    let at = position_of(attributes, namespace, name);
    if at < attributes.len() {
        Some(attributes[at].clone())
    } else {
        None
    }
}

/// Sets the attribute in the list, in the place of the one that has its
/// key if there is one, and returns the one it replaced.
pub fn store_attribute(attributes: &mut Vec<Attribute>, attribute: Attribute) -> (r: Option<
    Attribute,
>)
    ensures
        attribute_views(final(attributes)@) == put_attribute(
            attribute_views(old(attributes)@),
            attribute@,
        ),
        match r {
            Some(a) => lookup_attribute(attribute_views(old(attributes)@), attribute@.key())
                == Some(a@),
            None => lookup_attribute(attribute_views(old(attributes)@), attribute@.key()) is None,
        },
{
    let at = position_of(attributes, attribute.namespace.as_str(), attribute.name.as_str());
    let ghost before = attributes@;
    if at < attributes.len() {
        let mut attribute = attribute;
        std::mem::swap(&mut attributes[at], &mut attribute);
        assert(attribute_views(attributes@) =~= attribute_views(before).update(
            at as int,
            attributes@[at as int]@,
        ));
        Some(attribute)
    } else {
        attributes.push(attribute);
        assert(attribute_views(attributes@) =~= attribute_views(before).push(attribute@));
        None
    }
}

} // verus!
