//! Dependency-free parsing of configuration files.

use vstd::prelude::*;
use vstd::string::StringExecFns;
use crate::text;

verus! {

pub const CONFIG_VERSION: i32 = 1;
pub const MAX_DRIVES: usize = 4;
pub const MAX_FILESYSTEMS: usize = 4;
pub const MAX_NETWORK_INTERFACES: usize = 1;

/// A named member of an object.
#[derive(Debug, PartialEq, Eq)]
pub struct Entry {
    pub name: String,
    pub value: Value,
}

/// The members of an object, in the order of their names. No name occurs twice.
#[derive(Debug, PartialEq, Eq)]
pub struct Object {
    pub entries: Vec<Entry>,
}

#[derive(Debug, PartialEq, Eq)]
pub enum Value {
    Null,
    Bool(bool),
    Integer(i32),
    String(String),
    Array(Vec<Value>),
    Object(Object),
}

/// The model of a value.
pub enum Tree {
    Null,
    Bool(bool),
    Integer(i32),
    Text(Seq<char>),
    List(Seq<Tree>),
    Record(Seq<(Seq<char>, Tree)>),
}

impl Value {
    pub open spec fn tree(self) -> Tree
        decreases self,
    {
        match self {
            Value::Null => Tree::Null,
            Value::Bool(value) => Tree::Bool(value),
            Value::Integer(value) => Tree::Integer(value),
            Value::String(value) => Tree::Text(value@),
            Value::Array(values) => Tree::List(
                Seq::new(
                    values@.len(),
                    |i: int|
                        if 0 <= i < values@.len() {
                            values@[i].tree()
                        } else {
                            Tree::Null
                        },
                ),
            ),
            Value::Object(object) => Tree::Record(
                Seq::new(
                    object.entries@.len(),
                    |i: int|
                        if 0 <= i < object.entries@.len() {
                            (object.entries@[i].name@, object.entries@[i].value.tree())
                        } else {
                            (Seq::empty(), Tree::Null)
                        },
                ),
            ),
        }
    }

    #[must_use]
    pub fn as_integer(&self) -> (r: Option<i32>)
        ensures
            r == (match self.tree() {
                Tree::Integer(value) => Some(value),
                _ => None,
            }),
    {
        match self {
            Value::Integer(value) => Some(*value),
            _ => None,
        }
    }

    #[must_use]
    pub fn as_str(&self) -> (r: Option<&str>)
        ensures
            match r {
                Some(text) => self.tree() == Tree::Text(text@),
                None => !(self.tree() is Text),
            },
    {
        match self {
            Value::String(value) => Some(value.as_str()),
            _ => None,
        }
    }

    #[must_use]
    pub fn as_array(&self) -> (r: Option<&[Value]>)
        ensures
            match r {
                Some(values) => self.tree() == Tree::List(trees(values@)),
                None => !(self.tree() is List),
            },
    {
        match self {
            Value::Array(values) => {
                assert(self.tree()->List_0 =~= trees(values@));
                Some(values.as_slice())
            },
            _ => None,
        }
    }

    #[must_use]
    pub fn as_object(&self) -> (r: Option<&Object>)
        ensures
            match r {
                Some(object) => self.tree() == Tree::Record(object@),
                None => !(self.tree() is Record),
            },
    {
        match self {
            Value::Object(object) => {
                assert(self.tree()->Record_0 =~= object@);
                Some(object)
            },
            _ => None,
        }
    }
}

/// The models of a list of values.
pub open spec fn trees(values: Seq<Value>) -> Seq<Tree> {
    values.map_values(|value: Value| value.tree())
}

impl View for Object {
    type V = Seq<(Seq<char>, Tree)>;

    open spec fn view(&self) -> Seq<(Seq<char>, Tree)> {
        self.entries@.map_values(|entry: Entry| (entry.name@, entry.value.tree()))
    }
}

/// Where the first member of a name is, or `members.len()`.
pub open spec fn place(members: Seq<(Seq<char>, Tree)>, name: Seq<char>) -> nat
    decreases members.len(),
{
    if members.len() == 0 {
        0
    } else if members[0].0 == name {
        0
    } else {
        1 + place(members.skip(1), name)
    }
}

/// The member of a name.
pub open spec fn member(members: Seq<(Seq<char>, Tree)>, name: Seq<char>) -> Option<Tree> {
    let i = place(members, name);
    if i < members.len() {
        Some(members[i as int].1)
    } else {
        None
    }
}

/// How many members come before the first whose name is behind a given one.
pub open spec fn slot(members: Seq<(Seq<char>, Tree)>, name: Seq<char>) -> nat
    decreases members.len(),
{
    if members.len() == 0 || text::precedes(name, members[0].0) {
        0
    } else {
        1 + slot(members.skip(1), name)
    }
}

/// Whether members are in the order of their names, no two of which are equal.
pub open spec fn in_order(members: Seq<(Seq<char>, Tree)>) -> bool {
    forall|i: int, j: int|
        0 <= i < j < members.len() ==> text::precedes(
            (#[trigger] members[i]).0,
            (#[trigger] members[j]).0,
        )
}

/// Whether the members of every record in a value are in order.
pub open spec fn orderly(tree: Tree) -> bool
    decreases tree,
{
    match tree {
        Tree::List(items) => forall|i: int|
            #![trigger items[i]]
            0 <= i < items.len() ==> orderly(items[i]),
        Tree::Record(members) => in_order(members) && forall|i: int|
            #![trigger members[i]]
            0 <= i < members.len() ==> orderly(members[i].1),
        _ => true,
    }
}

/// Adds a member where its name belongs, or in place of an earlier one of the
/// same name.
pub open spec fn with_member(
    members: Seq<(Seq<char>, Tree)>,
    name: Seq<char>,
    value: Tree,
) -> Seq<(Seq<char>, Tree)> {
    let i = place(members, name);
    if i < members.len() {
        members.update(i as int, (name, value))
    } else {
        members.insert(slot(members, name) as int, (name, value))
    }
}

proof fn lemma_place(members: Seq<(Seq<char>, Tree)>, name: Seq<char>, i: int)
    requires
        0 <= i <= members.len(),
        forall|j: int| 0 <= j < i ==> (#[trigger] members[j]).0 != name,
        i < members.len() ==> members[i].0 == name,
    ensures
        place(members, name) == i,
    decreases i,
{
    if i > 0 {
        let rest = members.skip(1);
        assert forall|j: int| 0 <= j < i - 1 implies (#[trigger] rest[j]).0 != name by {
            assert(rest[j] == members[j + 1]);
        }
        if i < members.len() {
            assert(rest[i - 1] == members[i]);
        }
        lemma_place(rest, name, i - 1);
    }
}

proof fn lemma_slot(members: Seq<(Seq<char>, Tree)>, name: Seq<char>)
    ensures
        slot(members, name) <= members.len(),
        slot(members, name) < members.len() ==> text::precedes(
            name,
            members[slot(members, name) as int].0,
        ),
        forall|j: int|
            0 <= j < slot(members, name) ==> !text::precedes(name, (#[trigger] members[j]).0),
    decreases members.len(),
{
    if members.len() > 0 && !text::precedes(name, members[0].0) {
        let rest = members.skip(1);
        lemma_slot(rest, name);
        assert forall|j: int| 0 <= j < slot(members, name) implies !text::precedes(
            name,
            (#[trigger] members[j]).0,
        ) by {
            if j > 0 {
                assert(rest[j - 1] == members[j]);
            }
        }
        if slot(members, name) < members.len() {
            assert(rest[slot(rest, name) as int] == members[slot(members, name) as int]);
        }
    }
}

/// A slot is where the members behind a name start.
proof fn lemma_slot_is(members: Seq<(Seq<char>, Tree)>, name: Seq<char>, i: int)
    requires
        0 <= i <= members.len(),
        forall|j: int| 0 <= j < i ==> !text::precedes(name, (#[trigger] members[j]).0),
        i < members.len() ==> text::precedes(name, members[i].0),
    ensures
        slot(members, name) == i,
{
    lemma_slot(members, name);
    let s = slot(members, name) as int;
    if s < i {
        assert(!text::precedes(name, members[s].0));
    }
    if i < s {
        assert(!text::precedes(name, members[i].0));
    }
}

/// After a change the name has its new value while the other names keep theirs.
pub proof fn law_member_of_changed_record(
    members: Seq<(Seq<char>, Tree)>,
    name: Seq<char>,
    value: Tree,
    other: Seq<char>,
)
    ensures
        member(with_member(members, name, value), name) == Some(value),
        other != name ==> member(with_member(members, name, value), other) == member(
            members,
            other,
        ),
{
    lemma_place_of(members, name);
    lemma_slot(members, name);
    let i = place(members, name) as int;
    let after = with_member(members, name, value);
    if i < members.len() {
        lemma_place(after, name, i);
        if other != name {
            lemma_place_of(members, other);
            lemma_place(after, other, place(members, other) as int);
        }
    } else {
        let s = slot(members, name) as int;
        assert forall|j: int| 0 <= j < s implies (#[trigger] after[j]).0 != name by {
            assert(after[j] == members[j]);
        }
        lemma_place(after, name, s);
        if other != name {
            lemma_place_of(members, other);
            let k = place(members, other) as int;
            let at = if k < s {
                k
            } else {
                k + 1
            };
            assert forall|j: int| 0 <= j < at implies (#[trigger] after[j]).0 != other by {
                if j < s {
                    assert(after[j] == members[j]);
                } else if j > s {
                    assert(after[j] == members[j - 1]);
                }
            }
            lemma_place(after, other, at);
        }
    }
}

/// A change keeps the members of a record in order.
pub proof fn law_changed_record_is_in_order(
    members: Seq<(Seq<char>, Tree)>,
    name: Seq<char>,
    value: Tree,
)
    requires
        in_order(members),
    ensures
        in_order(with_member(members, name, value)),
{
    lemma_place_of(members, name);
    lemma_slot(members, name);
    let after = with_member(members, name, value);
    let s = slot(members, name) as int;
    assert forall|i: int, j: int| 0 <= i < j < after.len() implies text::precedes(
        (#[trigger] after[i]).0,
        (#[trigger] after[j]).0,
    ) by {
        if place(members, name) < members.len() {
            assert(after[i].0 == members[i].0 && after[j].0 == members[j].0);
        } else {
            let a = if i < s {
                i
            } else {
                i - 1
            };
            let b = if j < s {
                j
            } else {
                j - 1
            };
            if i == s {
                assert(after[j] == members[b]);
                if b > s {
                    assert(text::precedes(members[s].0, members[b].0));
                    text::lemma_precedes_transitive(name, members[s].0, members[b].0);
                }
            } else if j == s {
                assert(after[i] == members[a]);
                assert(members[a].0 != name);
                text::lemma_precedes_total(name, members[a].0);
            } else {
                assert(after[i] == members[a] && after[j] == members[b]);
            }
        }
    }
}

/// Two records in order that hold the same members are equal.
pub proof fn law_records_are_their_members(
    a: Seq<(Seq<char>, Tree)>,
    b: Seq<(Seq<char>, Tree)>,
)
    requires
        in_order(a),
        in_order(b),
        forall|name: Seq<char>| #[trigger] member(a, name) == member(b, name),
    ensures
        a == b,
    decreases a.len(),
{
    if a.len() == 0 {
        if b.len() > 0 {
            lemma_place(b, b[0].0, 0);
            assert(member(a, b[0].0) == member(b, b[0].0));
        }
        assert(a =~= b);
    } else {
        let last = a.last();
        lemma_member_at(a, a.len() - 1);
        assert(member(a, last.0) == member(b, last.0));
        lemma_place_of(b, last.0);
        let k = place(b, last.0) as int;
        assert(b[k] == last);
        // Nothing in `b` is behind the last member of `a`.
        if k < b.len() - 1 {
            let top = b.last();
            lemma_member_at(b, b.len() - 1);
            assert(member(a, top.0) == member(b, top.0));
            lemma_place_of(a, top.0);
            let i = place(a, top.0) as int;
            assert(text::precedes(b[k].0, b[b.len() - 1].0));
            text::lemma_precedes_total(last.0, top.0);
            if i < a.len() - 1 {
                assert(text::precedes(a[i].0, a[a.len() - 1].0));
            }
            assert(false);
        }
        let x = a.drop_last();
        let y = b.drop_last();
        assert forall|name: Seq<char>| #[trigger] member(x, name) == member(y, name) by {
            lemma_member_without_last(a, name);
            lemma_member_without_last(b, name);
            assert(member(a, name) == member(b, name));
        }
        law_records_are_their_members(x, y);
        assert(a =~= x.push(last) && b =~= y.push(last));
    }
}

proof fn lemma_member_at(members: Seq<(Seq<char>, Tree)>, i: int)
    requires
        in_order(members),
        0 <= i < members.len(),
    ensures
        place(members, members[i].0) == i,
        member(members, members[i].0) == Some(members[i].1),
{
    assert forall|j: int| 0 <= j < i implies (#[trigger] members[j]).0 != members[i].0 by {
        text::lemma_precedes_total(members[j].0, members[i].0);
    }
    lemma_place(members, members[i].0, i);
}

proof fn lemma_member_without_last(members: Seq<(Seq<char>, Tree)>, name: Seq<char>)
    requires
        in_order(members),
        members.len() > 0,
    ensures
        member(members.drop_last(), name) == (if name == members.last().0 {
            None
        } else {
            member(members, name)
        }),
{
    let rest = members.drop_last();
    let last = members.len() - 1;
    if name == members.last().0 {
        lemma_member_at(members, last);
        lemma_place_of(members, name);
        assert forall|j: int| 0 <= j < rest.len() implies (#[trigger] rest[j]).0 != name by {
            assert(rest[j] == members[j]);
        }
        lemma_place(rest, name, rest.len() as int);
    } else {
        lemma_place_of(members, name);
        let k = place(members, name) as int;
        let at = if k < last {
            k
        } else {
            last
        };
        assert forall|j: int| 0 <= j < at implies (#[trigger] rest[j]).0 != name by {
            assert(rest[j] == members[j]);
        }
        if k < last {
            assert(rest[k] == members[k]);
        } else {
            assert(members[last].0 != name);
        }
        lemma_place(rest, name, at);
    }
}

/// The order in which two members are written does not matter.
pub proof fn law_order_of_writing_does_not_matter(
    members: Seq<(Seq<char>, Tree)>,
    a: Seq<char>,
    x: Tree,
    b: Seq<char>,
    y: Tree,
)
    requires
        in_order(members),
        a != b,
    ensures
        with_member(with_member(members, a, x), b, y) == with_member(
            with_member(members, b, y),
            a,
            x,
        ),
{
    let (with_a, with_b) = (with_member(members, a, x), with_member(members, b, y));
    let (left, right) = (with_member(with_a, b, y), with_member(with_b, a, x));
    law_changed_record_is_in_order(members, a, x);
    law_changed_record_is_in_order(members, b, y);
    law_changed_record_is_in_order(with_a, b, y);
    law_changed_record_is_in_order(with_b, a, x);
    assert forall|name: Seq<char>| #[trigger] member(left, name) == member(right, name) by {
        law_member_of_changed_record(members, a, x, name);
        law_member_of_changed_record(members, b, y, name);
        law_member_of_changed_record(with_a, b, y, name);
        law_member_of_changed_record(with_b, a, x, name);
    }
    law_records_are_their_members(left, right);
}

proof fn lemma_place_of(members: Seq<(Seq<char>, Tree)>, name: Seq<char>)
    ensures
        place(members, name) <= members.len(),
        forall|j: int| 0 <= j < place(members, name) ==> (#[trigger] members[j]).0 != name,
        place(members, name) < members.len() ==> members[place(members, name) as int].0 == name,
    decreases members.len(),
{
    if members.len() > 0 && members[0].0 != name {
        let rest = members.skip(1);
        lemma_place_of(rest, name);
        assert forall|j: int| 0 <= j < place(members, name) implies (#[trigger] members[j]).0
            != name by {
            if j > 0 {
                assert(rest[j - 1] == members[j]);
            }
        }
        if place(members, name) < members.len() {
            assert(rest[place(rest, name) as int] == members[place(members, name) as int]);
        }
    }
}

impl Object {
    fn find(&self, name: &str) -> (r: usize)
        ensures
            r == place(self@, name@),
            r <= self.entries@.len(),
    {
        let mut i: usize = 0;
        while i < self.entries.len()
            invariant
                i <= self.entries.len(),
                forall|j: int| 0 <= j < i ==> (#[trigger] self@[j]).0 != name@,
            decreases self.entries.len() - i,
        {
            if text::same(self.entries[i].name.as_str(), name) {
                assert(self@[i as int].0 == name@);
                proof {
                    lemma_place(self@, name@, i as int);
                }
                return i;
            }
            i = i + 1;
        }
        proof {
            lemma_place(self@, name@, i as int);
        }
        i
    }

    /// The member of a name.
    pub fn get(&self, name: &str) -> (r: Option<&Value>)
        ensures
            match r {
                Some(value) => member(self@, name@) == Some(value.tree()),
                None => member(self@, name@) is None,
            },
    {
        let i: usize = self.find(name);
        if i < self.entries.len() {
            Some(&self.entries[i].value)
        } else {
            None
        }
    }

    /// An object without members.
    #[must_use]
    pub fn new() -> (r: Self)
        ensures
            r@ == Seq::<(Seq<char>, Tree)>::empty(),
    {
        let object = Object { entries: Vec::new() };
        assert(object@ =~= Seq::empty());
        object
    }

    /// Where a new name belongs.
    fn place_for(&self, name: &str) -> (r: usize)
        ensures
            r == slot(self@, name@),
            r <= self.entries@.len(),
    {
        let mut i: usize = 0;
        while i < self.entries.len() && !text::text_precedes(name, self.entries[i].name.as_str())
            invariant
                i <= self.entries.len(),
                forall|j: int| 0 <= j < i ==> !text::precedes(name@, (#[trigger] self@[j]).0),
            decreases self.entries.len() - i,
        {
            i = i + 1;
        }
        proof {
            if i < self.entries@.len() {
                assert(self@[i as int].0 == self.entries@[i as int].name@);
            }
            lemma_slot_is(self@, name@, i as int);
        }
        i
    }

    /// Adds a member, in place of an earlier one of the same name.
    pub fn insert(&mut self, name: String, value: Value)
        ensures
            final(self)@ == with_member(old(self)@, name@, value.tree()),
            in_order(old(self)@) ==> in_order(final(self)@),
    {
        proof {
            if in_order(self@) {
                law_changed_record_is_in_order(self@, name@, value.tree());
            }
        }
        let i: usize = self.find(name.as_str());
        if i < self.entries.len() {
            self.entries.set(i, Entry { name, value });
        } else {
            let at: usize = self.place_for(name.as_str());
            self.entries.insert(at, Entry { name, value });
        }
        assert(self@ =~= with_member(old(self)@, name@, value.tree()));
    }
}

/// Copies a value.
fn copy_value(value: &Value) -> (r: Value)
    ensures
        r.tree() == value.tree(),
    decreases value,
{
    match value {
        Value::Null => Value::Null,
        Value::Bool(value) => Value::Bool(*value),
        Value::Integer(value) => Value::Integer(*value),
        Value::String(value) => Value::String(value.clone()),
        Value::Array(values) => {
            let copied: Value = Value::Array(copy_values(values));
            assert(copied.tree()->List_0 =~= value.tree()->List_0) by {
                assert(copied.tree()->List_0 =~= trees(copied->Array_0@));
                assert(value.tree()->List_0 =~= trees(values@));
            }
            copied
        },
        Value::Object(object) => {
            let copied: Value = Value::Object(copy_object(object));
            assert(copied.tree()->Record_0 =~= value.tree()->Record_0) by {
                assert(copied.tree()->Record_0 =~= copied->Object_0@);
                assert(value.tree()->Record_0 =~= object@);
            }
            copied
        },
    }
}

/// Copies the values of an array.
fn copy_values(values: &Vec<Value>) -> (r: Vec<Value>)
    ensures
        trees(r@) == trees(values@),
    decreases values,
{
    let mut copies: Vec<Value> = Vec::new();
    let mut i: usize = 0;
    while i < values.len()
        invariant
            i == copies@.len(),
            i <= values@.len(),
            forall|j: int| 0 <= j < i ==> (#[trigger] copies@[j]).tree() == values@[j].tree(),
        decreases values@.len() - i,
    {
        let copy: Value = copy_value(&values[i]);
        copies.push(copy);
        i = i + 1;
    }
    assert(trees(copies@) =~= trees(values@));
    copies
}

/// Copies the members of an object.
fn copy_object(object: &Object) -> (r: Object)
    ensures
        r@ == object@,
    decreases object,
{
    let mut copies: Vec<Entry> = Vec::new();
    let mut i: usize = 0;
    while i < object.entries.len()
        invariant
            i == copies@.len(),
            i <= object.entries@.len(),
            forall|j: int|
                0 <= j < i ==> (#[trigger] copies@[j]).name@ == object.entries@[j].name@
                    && copies@[j].value.tree() == object.entries@[j].value.tree(),
        decreases object.entries@.len() - i,
    {
        let value: Value = copy_value(&object.entries[i].value);
        copies.push(Entry { name: object.entries[i].name.clone(), value });
        i = i + 1;
    }
    let copied = Object { entries: copies };
    assert(copied@ =~= object@);
    copied
}

impl Clone for Value {
    fn clone(&self) -> (r: Self)
        ensures
            r.tree() == self.tree(),
    {
        copy_value(self)
    }
}

impl Clone for Object {
    fn clone(&self) -> (r: Self)
        ensures
            r@ == self@,
    {
        copy_object(self)
    }
}

impl Clone for Entry {
    fn clone(&self) -> (r: Self)
        ensures
            r.name@ == self.name@,
            r.value.tree() == self.value.tree(),
    {
        Entry { name: self.name.clone(), value: copy_value(&self.value) }
    }
}

#[derive(Clone, Debug, PartialEq, Eq)]
pub struct ParseError {
    pub offset: usize,
    pub message: String,
}

/// The model of a parse error.
pub struct Fault {
    pub offset: int,
    pub message: Seq<char>,
}

impl View for ParseError {
    type V = Fault;

    open spec fn view(&self) -> Fault {
        Fault { offset: self.offset as int, message: self.message@ }
    }
}

impl Fault {
    /// The text of a parse error.
    pub open spec fn text(self) -> Seq<char> {
        self.message + " at byte "@ + text::decimal(self.offset as nat)
    }
}

impl ParseError {
    /// What went wrong, and where.
    pub fn describe(&self) -> (r: String)
        ensures
            r@ == self@.text(),
    {
        let mut out: String = self.message.clone();
        out.append(" at byte ");
        let offset: String = text::decimal_text(self.offset as u64);
        out.append(offset.as_str());
        out
    }
}

pub open spec fn fault<T>(offset: int, message: Seq<char>) -> Result<T, Fault> {
    Err(Fault { offset, message })
}

/// The byte at a place.
pub open spec fn byte_at(s: Seq<u8>, p: int) -> Option<u8> {
    if 0 <= p < s.len() {
        Some(s[p])
    } else {
        None
    }
}

pub open spec fn is_space(byte: u8) -> bool {
    byte == 32 || byte == 9 || byte == 10 || byte == 12 || byte == 13
}

pub open spec fn is_digit(byte: u8) -> bool {
    48 <= byte <= 57
}

/// A letter, `_` or `$`.
pub open spec fn starts_identifier(byte: u8) -> bool {
    65 <= byte <= 90 || 97 <= byte <= 122 || byte == 95 || byte == 36
}

pub open spec fn in_identifier(byte: u8) -> bool {
    starts_identifier(byte) || is_digit(byte)
}

/// The value of a hexadecimal digit.
pub open spec fn hex_value(byte: u8) -> Option<u8> {
    if 48 <= byte <= 57 {
        Some((byte - 48) as u8)
    } else if 97 <= byte <= 102 {
        Some((byte - 87) as u8)
    } else if 65 <= byte <= 70 {
        Some((byte - 55) as u8)
    } else {
        None
    }
}

/// The first place from `p` on that holds no blank.
pub open spec fn after_spaces(s: Seq<u8>, p: int) -> int
    decreases s.len() - p,
{
    if 0 <= p < s.len() && is_space(s[p]) {
        after_spaces(s, p + 1)
    } else {
        p
    }
}

/// The end of the line that holds `p`.
pub open spec fn line_end(s: Seq<u8>, p: int) -> int
    decreases s.len() - p,
{
    if 0 <= p < s.len() && s[p] != 10 {
        line_end(s, p + 1)
    } else {
        p
    }
}

/// The place behind the first `*/` from `p` on, or -1.
pub open spec fn comment_end(s: Seq<u8>, p: int) -> int
    decreases s.len() - p,
{
    if p < 0 || p + 1 >= s.len() {
        -1
    } else if s[p] == 42 && s[p + 1] == 47 {
        p + 2
    } else {
        comment_end(s, p + 1)
    }
}

/// The first place from `p` on behind blanks and comments.
pub open spec fn after_blank(s: Seq<u8>, p: int) -> Result<int, Fault>
    decreases s.len() - p,
{
    let q = after_spaces(s, p);
    if 0 <= p <= q && q + 1 < s.len() && s[q] == 47 && s[q + 1] == 47 {
        let e = line_end(s, q + 2);
        if e < q + 2 || e > s.len() {
            Ok(q)
        } else {
            after_blank(s, e)
        }
    } else if 0 <= p <= q && q + 1 < s.len() && s[q] == 47 && s[q + 1] == 42 {
        let e = comment_end(s, q + 2);
        if e < q + 2 || e > s.len() {
            fault(q + 2, "unterminated comment"@)
        } else {
            after_blank(s, e)
        }
    } else {
        Ok(q)
    }
}

/// The byte that an escape stands for, and the place behind it; `p` is behind
/// the backslash.
pub open spec fn escape(s: Seq<u8>, p: int) -> Result<(u8, int), Fault> {
    match byte_at(s, p) {
        None => fault(p, "unknown escape code"@),
        Some(byte) => if byte == 39 || byte == 34 || byte == 92 {
            Ok((byte, p + 1))
        } else if byte == 110 {
            Ok((10u8, p + 1))
        } else if byte == 114 {
            Ok((13u8, p + 1))
        } else if byte == 116 {
            Ok((9u8, p + 1))
        } else if byte == 120 {
            match hex_at(s, p + 1) {
                Err(error) => Err(error),
                Ok(high) => match hex_at(s, p + 2) {
                    Err(error) => Err(error),
                    Ok(low) => Ok(((high * 16 + low) as u8, p + 3)),
                },
            }
        } else {
            fault(p + 1, "unknown escape code"@)
        },
    }
}

pub open spec fn hex_at(s: Seq<u8>, p: int) -> Result<u8, Fault> {
    match byte_at(s, p) {
        None => fault(p, "invalid hex digit"@),
        Some(byte) => match hex_value(byte) {
            Some(value) => Ok(value),
            None => fault(p + 1, "invalid hex digit"@),
        },
    }
}

/// The rest of a string from `p` on, behind the bytes in `so_far`.
pub open spec fn string_from(s: Seq<u8>, p: int, so_far: Seq<u8>) -> Result<
    (Seq<char>, int),
    Fault,
>
    decreases s.len() - p,
{
    match byte_at(s, p) {
        None => fault(p, "unterminated string"@),
        Some(byte) => if byte == 34 {
            if vstd::utf8::valid_utf8(so_far) {
                Ok((vstd::utf8::decode_utf8(so_far), p + 1))
            } else {
                fault(p + 1, "string is not valid UTF-8"@)
            }
        } else if byte == 10 || byte == 13 {
            fault(p + 1, "unterminated string"@)
        } else if byte == 92 {
            match escape(s, p + 1) {
                Err(error) => Err(error),
                Ok((value, q)) => string_from(s, q, so_far.push(value)),
            }
        } else {
            string_from(s, p + 1, so_far.push(byte))
        },
    }
}

/// The end of the identifier that holds `p`.
pub open spec fn identifier_end(s: Seq<u8>, p: int) -> int
    decreases s.len() - p,
{
    if 0 <= p < s.len() && in_identifier(s[p]) {
        identifier_end(s, p + 1)
    } else {
        p
    }
}

/// The identifier that starts at `p`.
pub open spec fn identifier_at(s: Seq<u8>, p: int) -> Result<(Seq<char>, int), Fault> {
    let e = identifier_end(s, p + 1);
    let name = s.subrange(p, e);
    if vstd::utf8::valid_utf8(name) {
        Ok((vstd::utf8::decode_utf8(name), e))
    } else {
        fault(e, "invalid identifier"@)
    }
}

/// The value of a digit in a radix.
pub open spec fn digit_in(byte: u8, radix: int) -> Option<u8> {
    match hex_value(byte) {
        Some(value) => if value < radix {
            Some(value)
        } else {
            None
        },
        None => None,
    }
}

pub open spec fn digits_end(s: Seq<u8>, p: int, radix: int) -> int
    decreases s.len() - p,
{
    if 0 <= p < s.len() && digit_in(s[p], radix) is Some {
        digits_end(s, p + 1, radix)
    } else {
        p
    }
}

/// The number that digits write.
pub open spec fn digits_value(digits: Seq<u8>, radix: int) -> int
    decreases digits.len(),
{
    if digits.len() == 0 {
        0
    } else {
        digits_value(digits.drop_last(), radix) * radix + (match digit_in(digits.last(), radix) {
            Some(value) => value as int,
            None => 0,
        })
    }
}

/// The integer that starts at `p`: `0x` marks a hexadecimal and `0` an octal
/// number.
pub open spec fn integer_at(s: Seq<u8>, p: int) -> Result<(i32, int), Fault> {
    let marked = p + 1 < s.len() && s[p] == 48 && (s[p + 1] == 120 || s[p + 1] == 88);
    let radix: int = if marked {
        16
    } else if s[p] == 48 {
        8
    } else {
        10
    };
    let start = if marked {
        p + 2
    } else if s[p] == 48 {
        p + 1
    } else {
        p
    };
    let e = digits_end(s, start, radix);
    if e == start {
        if radix == 8 {
            Ok((0i32, e))
        } else {
            fault(e, "integer has no digits"@)
        }
    } else if digits_value(s.subrange(start, e), radix) > i32::MAX {
        fault(e, "integer out of range"@)
    } else {
        Ok((digits_value(s.subrange(start, e), radix) as i32, e))
    }
}

/// A word of the language.
pub open spec fn word_value(name: Seq<char>, e: int) -> Result<(Tree, int), Fault> {
    if name == "null"@ {
        Ok((Tree::Null, e))
    } else if name == "true"@ {
        Ok((Tree::Bool(true), e))
    } else if name == "false"@ {
        Ok((Tree::Bool(false), e))
    } else {
        fault(e, "unknown identifier"@)
    }
}

/// The value from `p` on, and the place behind it.
pub open spec fn value_at(s: Seq<u8>, p: int) -> Result<(Tree, int), Fault>
    decreases s.len() - p, 1int,
{
    match after_blank(s, p) {
        Err(error) => Err(error),
        Ok(q) => match byte_at(s, q) {
            None => fault(q, "unexpected end of input"@),
            Some(byte) => if q < p {
                fault(q, "unexpected character"@)
            } else if byte == 123 {
                members_from(s, q + 1, Seq::empty())
            } else if byte == 91 {
                items_from(s, q + 1, Seq::empty())
            } else if byte == 34 {
                match string_from(s, q + 1, Seq::empty()) {
                    Err(error) => Err(error),
                    Ok((value, e)) => Ok((Tree::Text(value), e)),
                }
            } else if is_digit(byte) {
                match integer_at(s, q) {
                    Err(error) => Err(error),
                    Ok((value, e)) => Ok((Tree::Integer(value), e)),
                }
            } else if starts_identifier(byte) {
                match identifier_at(s, q) {
                    Err(error) => Err(error),
                    Ok((name, e)) => word_value(name, e),
                }
            } else {
                fault(q, "unexpected character"@)
            },
        },
    }
}

/// The name of a member, in quotes or as an identifier.
pub open spec fn name_at(s: Seq<u8>, p: int) -> Result<(Seq<char>, int), Fault> {
    let name = match byte_at(s, p) {
        Some(byte) => if byte == 34 {
            string_from(s, p + 1, Seq::empty())
        } else if starts_identifier(byte) {
            identifier_at(s, p)
        } else {
            fault(p, "invalid property name"@)
        },
        None => fault(p, "invalid property name"@),
    };
    match name {
        Err(error) => Err(error),
        Ok((name, e)) => if name.len() == 0 {
            fault(e, "invalid property name"@)
        } else {
            Ok((name, e))
        },
    }
}

/// The place behind the colon that follows a name.
pub open spec fn after_colon(s: Seq<u8>, p: int) -> Result<int, Fault> {
    match after_blank(s, p) {
        Err(error) => Err(error),
        Ok(q) => match byte_at(s, q) {
            Some(byte) => if byte == 58 {
                Ok(q + 1)
            } else {
                fault(q + 1, "expected ':'"@)
            },
            None => fault(q, "expected ':'"@),
        },
    }
}

/// The place from which a list goes on behind an element: behind a comma, or
/// at the closing bracket.
pub open spec fn after_element(s: Seq<u8>, p: int, close: u8, message: Seq<char>) -> Result<
    int,
    Fault,
> {
    match after_blank(s, p) {
        Err(error) => Err(error),
        Ok(q) => match byte_at(s, q) {
            Some(byte) => if byte == 44 {
                Ok(q + 1)
            } else if byte == close {
                Ok(q)
            } else {
                fault(q, message)
            },
            None => fault(q, message),
        },
    }
}

/// The rest of an object from `p` on, behind the members in `so_far`.
pub open spec fn members_from(s: Seq<u8>, p: int, so_far: Seq<(Seq<char>, Tree)>) -> Result<
    (Tree, int),
    Fault,
>
    decreases s.len() - p, 0int,
{
    match after_blank(s, p) {
        Err(error) => Err(error),
        Ok(q) => if byte_at(s, q) == Some(125u8) {
            Ok((Tree::Record(so_far), q + 1))
        } else {
            match name_at(s, q) {
                Err(error) => Err(error),
                Ok((name, n)) => match after_colon(s, n) {
                    Err(error) => Err(error),
                    Ok(c) => if c <= p || c > s.len() {
                        fault(c, "expected ':'"@)
                    } else {
                        match value_at(s, c) {
                            Err(error) => Err(error),
                            Ok((value, v)) => match after_element(
                                s,
                                v,
                                125,
                                "expected ',' or '}'"@,
                            ) {
                                Err(error) => Err(error),
                                Ok(e) => if e <= p || e > s.len() {
                                    fault(e, "expected ',' or '}'"@)
                                } else {
                                    members_from(s, e, with_member(so_far, name, value))
                                },
                            },
                        }
                    },
                },
            }
        },
    }
}

/// The rest of an array from `p` on, behind the values in `so_far`.
pub open spec fn items_from(s: Seq<u8>, p: int, so_far: Seq<Tree>) -> Result<(Tree, int), Fault>
    decreases s.len() - p, 2int,
{
    match after_blank(s, p) {
        Err(error) => Err(error),
        Ok(q) => if byte_at(s, q) == Some(93u8) {
            Ok((Tree::List(so_far), q + 1))
        } else if q < p || q > s.len() {
            fault(q, "unexpected character"@)
        } else {
            match value_at(s, q) {
                Err(error) => Err(error),
                Ok((value, v)) => match after_element(s, v, 93, "expected ',' or ']'"@) {
                    Err(error) => Err(error),
                    Ok(e) => if e <= p || e > s.len() {
                        fault(e, "expected ',' or ']'"@)
                    } else {
                        items_from(s, e, so_far.push(value))
                    },
                },
            }
        },
    }
}

/// The value that a source writes.
pub open spec fn parsed(s: Seq<u8>) -> Result<Tree, Fault> {
    match value_at(s, 0) {
        Err(error) => Err(error),
        Ok((value, e)) => match after_blank(s, e) {
            Err(error) => Err(error),
            Ok(q) => if q < s.len() {
                fault(q, "unexpected characters after value"@)
            } else {
                Ok(value)
            },
        },
    }
}

/// The members of every record that a source writes are in order of their
/// names, whatever the order in which they are written.
pub proof fn law_parsed_records_are_in_order(s: Seq<u8>)
    ensures
        parsed(s) matches Ok(tree) ==> orderly(tree),
{
    lemma_value_orderly(s, 0);
}

proof fn lemma_value_orderly(s: Seq<u8>, p: int)
    ensures
        value_at(s, p) matches Ok((tree, _)) ==> orderly(tree),
    decreases s.len() - p, 1int,
{
    if let Ok(q) = after_blank(s, p) {
        if let Some(byte) = byte_at(s, q) {
            if q >= p && byte == 123 {
                lemma_members_orderly(s, q + 1, Seq::empty());
            } else if q >= p && byte == 91 {
                lemma_items_orderly(s, q + 1, Seq::empty());
            }
        }
    }
}

proof fn lemma_items_orderly(s: Seq<u8>, p: int, so_far: Seq<Tree>)
    requires
        orderly(Tree::List(so_far)),
    ensures
        items_from(s, p, so_far) matches Ok((tree, _)) ==> orderly(tree),
    decreases s.len() - p, 2int,
{
    if let Ok(q) = after_blank(s, p) {
        if byte_at(s, q) != Some(93u8) && p <= q <= s.len() {
            lemma_value_orderly(s, q);
            if let Ok((value, v)) = value_at(s, q) {
                if let Ok(e) = after_element(s, v, 93, "expected ',' or ']'"@) {
                    if p < e <= s.len() {
                        lemma_pushed_orderly(so_far, value);
                        lemma_items_orderly(s, e, so_far.push(value));
                    }
                }
            }
        }
    }
}

proof fn lemma_members_orderly(s: Seq<u8>, p: int, so_far: Seq<(Seq<char>, Tree)>)
    requires
        orderly(Tree::Record(so_far)),
    ensures
        members_from(s, p, so_far) matches Ok((tree, _)) ==> orderly(tree),
    decreases s.len() - p, 0int,
{
    if let Ok(q) = after_blank(s, p) {
        if byte_at(s, q) != Some(125u8) {
            if let Ok((name, n)) = name_at(s, q) {
                if let Ok(c) = after_colon(s, n) {
                    if p < c <= s.len() {
                        lemma_value_orderly(s, c);
                        if let Ok((value, v)) = value_at(s, c) {
                            if let Ok(e) = after_element(s, v, 125, "expected ',' or '}'"@) {
                                if p < e <= s.len() {
                                    lemma_with_member_orderly(so_far, name, value);
                                    lemma_members_orderly(
                                        s,
                                        e,
                                        with_member(so_far, name, value),
                                    );
                                }
                            }
                        }
                    }
                }
            }
        }
    }
}

proof fn lemma_pushed_orderly(items: Seq<Tree>, value: Tree)
    requires
        orderly(Tree::List(items)),
        orderly(value),
    ensures
        orderly(Tree::List(items.push(value))),
{
    let after = items.push(value);
    assert forall|i: int| #![trigger after[i]] 0 <= i < after.len() implies orderly(after[i]) by {
        if i < items.len() {
            assert(Tree::List(items)->List_0[i] == items[i]);
            assert(after[i] == items[i]);
        } else {
            assert(after[i] == value);
        }
    }
}

proof fn lemma_with_member_orderly(
    members: Seq<(Seq<char>, Tree)>,
    name: Seq<char>,
    value: Tree,
)
    requires
        orderly(Tree::Record(members)),
        orderly(value),
    ensures
        orderly(Tree::Record(with_member(members, name, value))),
{
    let after = with_member(members, name, value);
    law_changed_record_is_in_order(members, name, value);
    lemma_place_of(members, name);
    lemma_slot(members, name);
    let s = slot(members, name) as int;
    assert forall|i: int| #![trigger after[i]] 0 <= i < after.len() implies orderly(after[i].1) by {
        if place(members, name) < members.len() {
            if i != place(members, name) {
                assert(after[i] == members[i]);
            }
        } else if i < s {
            assert(after[i] == members[i]);
        } else if i > s {
            assert(after[i] == members[i - 1]);
        }
    }
}

struct Parser<'a> {
    source: &'a [u8],
    offset: usize,
}

/// Whether a step of a parser came out as a model says.
spec fn agrees<T, U>(
    r: Result<T, ParseError>,
    expected: Result<(U, int), Fault>,
    value: U,
    before: Parser<'_>,
    after: Parser<'_>,
) -> bool {
    &&& after.source@ == before.source@
    &&& after.offset <= after.source@.len()
    &&& match r {
        Ok(_) => expected == Ok::<_, Fault>((value, after.offset as int)) && after.offset
            > before.offset,
        Err(error) => expected == Err::<(U, int), _>(error@),
    }
}

impl<'a> Parser<'a> {
    fn error(&self, message: &str) -> (r: ParseError)
        ensures
            r@ == (Fault { offset: self.offset as int, message: message@ }),
    {
        ParseError { offset: self.offset, message: message.to_owned() }
    }

    fn peek(&self) -> (r: Option<u8>)
        ensures
            r == byte_at(self.source@, self.offset as int),
    {
        if self.offset < self.source.len() {
            Some(self.source[self.offset])
        } else {
            None
        }
    }

    fn advance(&mut self)
        requires
            old(self).offset < old(self).source@.len(),
        ensures
            final(self).source@ == old(self).source@,
            final(self).offset == old(self).offset + 1,
    {
        if self.offset < self.source.len() {
            self.offset = self.offset + 1;
        }
    }

    fn skip_line(&mut self)
        requires
            old(self).offset <= old(self).source@.len(),
        ensures
            final(self).source@ == old(self).source@,
            old(self).offset <= final(self).offset <= final(self).source@.len(),
            final(self).offset == line_end(old(self).source@, old(self).offset as int),
    {
        while self.offset < self.source.len() && self.source[self.offset] != 10
            invariant
                self.source@ == old(self).source@,
                old(self).offset <= self.offset <= self.source@.len(),
                line_end(self.source@, self.offset as int) == line_end(
                    old(self).source@,
                    old(self).offset as int,
                ),
            decreases self.source@.len() - self.offset,
        {
            self.offset = self.offset + 1;
        }
    }

    fn skip_comment(&mut self) -> (r: bool)
        requires
            old(self).offset <= old(self).source@.len(),
        ensures
            final(self).source@ == old(self).source@,
            old(self).offset <= final(self).offset <= final(self).source@.len(),
            r ==> final(self).offset == comment_end(old(self).source@, old(self).offset as int),
            !r ==> comment_end(old(self).source@, old(self).offset as int) == -1
                && final(self).offset == old(self).offset,
    {
        let mut p: usize = self.offset;
        let n: usize = self.source.len();
        while p < n && n - p >= 2
            invariant
                n == self.source@.len(),
                self.source@ == old(self).source@,
                self.offset == old(self).offset,
                old(self).offset <= p <= n,
                comment_end(self.source@, p as int) == comment_end(
                    old(self).source@,
                    old(self).offset as int,
                ),
            decreases n - p,
        {
            if self.source[p] == 42 && self.source[p + 1] == 47 {
                self.offset = p + 2;
                return true;
            }
            p = p + 1;
        }
        false
    }

    fn skip_space_and_comments(&mut self) -> (r: Result<(), ParseError>)
        requires
            old(self).offset <= old(self).source@.len(),
        ensures
            final(self).source@ == old(self).source@,
            old(self).offset <= final(self).offset <= final(self).source@.len(),
            match r {
                Ok(_) => after_blank(old(self).source@, old(self).offset as int) == Ok::<_, Fault>(
                    final(self).offset as int,
                ),
                Err(error) => after_blank(old(self).source@, old(self).offset as int) == Err::<
                    int,
                    _,
                >(error@),
            },
    {
        let ghost whole = after_blank(self.source@, self.offset as int);
        loop
            invariant
                self.source@ == old(self).source@,
                old(self).offset <= self.offset <= self.source@.len(),
                whole == after_blank(old(self).source@, old(self).offset as int),
                whole == after_blank(self.source@, self.offset as int),
            decreases self.source@.len() - self.offset,
        {
            let ghost p = self.offset as int;
            while self.offset < self.source.len() && space(self.source[self.offset])
                invariant
                    self.source@ == old(self).source@,
                    p <= self.offset <= self.source@.len(),
                    after_spaces(self.source@, self.offset as int) == after_spaces(
                        self.source@,
                        p,
                    ),
                decreases self.source@.len() - self.offset,
            {
                self.offset = self.offset + 1;
            }
            let rest: usize = self.source.len() - self.offset;
            if rest >= 2 && self.source[self.offset] == 47 && self.source[self.offset + 1] == 47 {
                self.offset = self.offset + 2;
                self.skip_line();
            } else if rest >= 2 && self.source[self.offset] == 47 && self.source[self.offset + 1]
                == 42 {
                self.offset = self.offset + 2;
                if !self.skip_comment() {
                    return Err(self.error("unterminated comment"));
                }
                proof {
                    lemma_comment_end(self.source@, after_spaces(self.source@, p) + 2);
                }
            } else {
                return Ok(());
            }
        }
    }

    fn hex_digit(&mut self) -> (r: Result<u8, ParseError>)
        requires
            old(self).offset <= old(self).source@.len(),
        ensures
            final(self).source@ == old(self).source@,
            final(self).offset <= final(self).source@.len(),
            match r {
                Ok(value) => hex_at(old(self).source@, old(self).offset as int) == Ok::<_, Fault>(
                    value,
                ) && final(self).offset == old(self).offset + 1 && value < 16,
                Err(error) => hex_at(old(self).source@, old(self).offset as int) == Err::<u8, _>(
                    error@,
                ),
            },
    {
        if self.offset >= self.source.len() {
            return Err(self.error("invalid hex digit"));
        }
        let byte: u8 = self.source[self.offset];
        self.offset = self.offset + 1;
        match hex(byte) {
            Some(value) => Ok(value),
            None => Err(self.error("invalid hex digit")),
        }
    }

    fn escape(&mut self) -> (r: Result<u8, ParseError>)
        requires
            old(self).offset <= old(self).source@.len(),
        ensures
            agrees(
                r,
                escape(old(self).source@, old(self).offset as int),
                r->Ok_0,
                *old(self),
                *final(self),
            ),
    {
        if self.offset >= self.source.len() {
            return Err(self.error("unknown escape code"));
        }
        let byte: u8 = self.source[self.offset];
        self.offset = self.offset + 1;
        if byte == 39 || byte == 34 || byte == 92 {
            Ok(byte)
        } else if byte == 110 {
            Ok(10)
        } else if byte == 114 {
            Ok(13)
        } else if byte == 116 {
            Ok(9)
        } else if byte == 120 {
            match self.hex_digit() {
                Err(error) => Err(error),
                Ok(high) => match self.hex_digit() {
                    Err(error) => Err(error),
                    Ok(low) => Ok(high * 16 + low),
                },
            }
        } else {
            Err(self.error("unknown escape code"))
        }
    }

    /// Takes a string, from its opening quote on.
    fn string(&mut self) -> (r: Result<String, ParseError>)
        requires
            old(self).offset < old(self).source@.len(),
        ensures
            agrees(
                r,
                string_from(old(self).source@, old(self).offset + 1, Seq::empty()),
                r->Ok_0@,
                *old(self),
                *final(self),
            ),
    {
        self.advance();
        let mut data: Vec<u8> = Vec::new();
        assert(data@ =~= Seq::empty());
        let ghost whole = string_from(old(self).source@, old(self).offset + 1, Seq::empty());
        loop
            invariant
                whole == string_from(old(self).source@, old(self).offset + 1, Seq::empty()),
                self.source@ == old(self).source@,
                old(self).offset < self.offset <= self.source@.len(),
                whole == string_from(self.source@, self.offset as int, data@),
            decreases self.source@.len() - self.offset,
        {
            if self.offset >= self.source.len() {
                return Err(self.error("unterminated string"));
            }
            let byte: u8 = self.source[self.offset];
            self.offset = self.offset + 1;
            if byte == 34 {
                return match text::from_utf8(data) {
                    Some(value) => Ok(value),
                    None => Err(self.error("string is not valid UTF-8")),
                };
            } else if byte == 10 || byte == 13 {
                return Err(self.error("unterminated string"));
            } else if byte == 92 {
                match self.escape() {
                    Ok(value) => {
                        data.push(value);
                    },
                    Err(error) => {
                        return Err(error);
                    },
                }
            } else {
                data.push(byte);
            }
        }
    }

    fn identifier(&mut self) -> (r: Result<String, ParseError>)
        requires
            old(self).offset < old(self).source@.len(),
        ensures
            agrees(
                r,
                identifier_at(old(self).source@, old(self).offset as int),
                r->Ok_0@,
                *old(self),
                *final(self),
            ),
    {
        let start: usize = self.offset;
        self.advance();
        while self.offset < self.source.len() && (identifier_start(self.source[self.offset])
            || digit(self.source[self.offset]))
            invariant
                start == old(self).offset,
                self.source@ == old(self).source@,
                start < self.offset <= self.source@.len(),
                identifier_end(self.source@, self.offset as int) == identifier_end(
                    self.source@,
                    start + 1,
                ),
            decreases self.source@.len() - self.offset,
        {
            self.offset = self.offset + 1;
        }
        let name: Vec<u8> = crate::bytes::copy_range(self.source, start, self.offset - start);
        match text::from_utf8(name) {
            Some(value) => Ok(value),
            None => Err(self.error("invalid identifier")),
        }
    }

    fn integer(&mut self) -> (r: Result<i32, ParseError>)
        requires
            old(self).offset < old(self).source@.len(),
            is_digit(old(self).source@[old(self).offset as int]),
        ensures
            agrees(
                r,
                integer_at(old(self).source@, old(self).offset as int),
                r->Ok_0,
                *old(self),
                *final(self),
            ),
    {
        let first: u8 = self.source[self.offset];
        let marked: bool = self.source.len() - self.offset >= 2 && first == 48 && (
        self.source[self.offset + 1] == 120 || self.source[self.offset + 1] == 88);
        let radix: u8 = if marked {
            16
        } else if first == 48 {
            8
        } else {
            10
        };
        if marked {
            self.offset = self.offset + 2;
        } else if first == 48 {
            self.offset = self.offset + 1;
        }
        let start: usize = self.offset;
        let mut value: u64 = 0;
        let ghost s = self.source@;
        assert(s.subrange(start as int, start as int) =~= Seq::<u8>::empty());
        loop
            invariant_except_break
                s == self.source@,
                self.source@ == old(self).source@,
                old(self).offset <= start <= self.offset <= self.source@.len(),
                radix == 8 || radix == 10 || radix == 16,
                digits_end(s, self.offset as int, radix as int) == digits_end(
                    s,
                    start as int,
                    radix as int,
                ),
                value <= 0xffff_ffff,
                value == 0xffff_ffff || digits_value(
                    s.subrange(start as int, self.offset as int),
                    radix as int,
                ) == value,
                value == 0xffff_ffff ==> digits_value(
                    s.subrange(start as int, self.offset as int),
                    radix as int,
                ) >= 0xffff_ffff,
            ensures
                s == self.source@,
                self.source@ == old(self).source@,
                start <= self.offset <= self.source@.len(),
                self.offset == digits_end(s, start as int, radix as int),
                value == 0xffff_ffff || digits_value(
                    s.subrange(start as int, self.offset as int),
                    radix as int,
                ) == value,
                value == 0xffff_ffff ==> digits_value(
                    s.subrange(start as int, self.offset as int),
                    radix as int,
                ) >= 0xffff_ffff,
            decreases self.source@.len() - self.offset,
        {
            if self.offset >= self.source.len() {
                break;
            }
            let digit: u8 = match hex(self.source[self.offset]) {
                Some(digit) => digit,
                None => {
                    break;
                },
            };
            if digit >= radix {
                break;
            }
            let ghost before = s.subrange(start as int, self.offset as int);
            assert(value * radix <= 0xffff_ffff * 16) by (nonlinear_arith)
                requires
                    value <= 0xffff_ffff,
                    radix <= 16,
            ;
            let grown: u64 = value * radix as u64 + digit as u64;
            proof {
                let after = s.subrange(start as int, self.offset + 1);
                assert(after.drop_last() =~= before);
                assert(after.last() == s[self.offset as int]);
                let b = digits_value(before, radix as int);
                let r = radix as int;
                if value == 0xffff_ffff {
                    assert(b * r >= b) by (nonlinear_arith)
                        requires
                            b >= 0,
                            r >= 1,
                    ;
                }
            }
            value = if value == 0xffff_ffff || grown > 0xffff_ffff {
                0xffff_ffff
            } else {
                grown
            };
            self.offset = self.offset + 1;
        }
        if self.offset == start {
            if radix == 8 {
                return Ok(0);
            }
            return Err(self.error("integer has no digits"));
        }
        if value > 0x7fff_ffff {
            return Err(self.error("integer out of range"));
        }
        Ok(value as i32)
    }

    fn name(&mut self) -> (r: Result<String, ParseError>)
        requires
            old(self).offset <= old(self).source@.len(),
        ensures
            agrees(
                r,
                name_at(old(self).source@, old(self).offset as int),
                r->Ok_0@,
                *old(self),
                *final(self),
            ),
    {
        let name: String = match self.peek() {
            Some(byte) => if byte == 34 {
                match self.string() {
                    Ok(name) => name,
                    Err(error) => {
                        return Err(error);
                    },
                }
            } else if identifier_start(byte) {
                match self.identifier() {
                    Ok(name) => name,
                    Err(error) => {
                        return Err(error);
                    },
                }
            } else {
                return Err(self.error("invalid property name"));
            },
            None => {
                return Err(self.error("invalid property name"));
            },
        };
        if name.as_str().is_empty() {
            return Err(self.error("invalid property name"));
        }
        Ok(name)
    }

    fn colon(&mut self) -> (r: Result<(), ParseError>)
        requires
            old(self).offset <= old(self).source@.len(),
        ensures
            final(self).source@ == old(self).source@,
            old(self).offset <= final(self).offset <= final(self).source@.len(),
            match r {
                Ok(_) => after_colon(old(self).source@, old(self).offset as int) == Ok::<_, Fault>(
                    final(self).offset as int,
                ),
                Err(error) => after_colon(old(self).source@, old(self).offset as int) == Err::<
                    int,
                    _,
                >(error@),
            },
    {
        match self.skip_space_and_comments() {
            Ok(()) => {},
            Err(error) => {
                return Err(error);
            },
        }
        match self.peek() {
            Some(byte) => {
                self.advance();
                if byte == 58 {
                    Ok(())
                } else {
                    Err(self.error("expected ':'"))
                }
            },
            None => Err(self.error("expected ':'")),
        }
    }

    fn separator(&mut self, close: u8, message: &str) -> (r: Result<(), ParseError>)
        requires
            old(self).offset <= old(self).source@.len(),
        ensures
            final(self).source@ == old(self).source@,
            old(self).offset <= final(self).offset <= final(self).source@.len(),
            match r {
                Ok(_) => after_element(
                    old(self).source@,
                    old(self).offset as int,
                    close,
                    message@,
                ) == Ok::<_, Fault>(final(self).offset as int),
                Err(error) => after_element(
                    old(self).source@,
                    old(self).offset as int,
                    close,
                    message@,
                ) == Err::<int, _>(error@),
            },
    {
        match self.skip_space_and_comments() {
            Ok(()) => {},
            Err(error) => {
                return Err(error);
            },
        }
        match self.peek() {
            Some(byte) => {
                if byte == 44 {
                    self.advance();
                    Ok(())
                } else if byte == close {
                    Ok(())
                } else {
                    Err(self.error(message))
                }
            },
            None => Err(self.error(message)),
        }
    }

    fn value(&mut self) -> (r: Result<Value, ParseError>)
        requires
            old(self).offset <= old(self).source@.len(),
        ensures
            agrees(
                r,
                value_at(old(self).source@, old(self).offset as int),
                r->Ok_0.tree(),
                *old(self),
                *final(self),
            ),
        decreases old(self).source@.len() - old(self).offset, 1int,
    {
        match self.skip_space_and_comments() {
            Ok(()) => {},
            Err(error) => {
                return Err(error);
            },
        }
        let byte: u8 = match self.peek() {
            Some(byte) => byte,
            None => {
                return Err(self.error("unexpected end of input"));
            },
        };
        if byte == 123 {
            self.object()
        } else if byte == 91 {
            self.array()
        } else if byte == 34 {
            match self.string() {
                Ok(value) => Ok(Value::String(value)),
                Err(error) => Err(error),
            }
        } else if digit(byte) {
            match self.integer() {
                Ok(value) => Ok(Value::Integer(value)),
                Err(error) => Err(error),
            }
        } else if identifier_start(byte) {
            match self.identifier() {
                Ok(name) => {
                    if text::same(name.as_str(), "null") {
                        Ok(Value::Null)
                    } else if text::same(name.as_str(), "true") {
                        Ok(Value::Bool(true))
                    } else if text::same(name.as_str(), "false") {
                        Ok(Value::Bool(false))
                    } else {
                        Err(self.error("unknown identifier"))
                    }
                },
                Err(error) => Err(error),
            }
        } else {
            Err(self.error("unexpected character"))
        }
    }

    /// Takes an object, from its opening bracket on.
    fn object(&mut self) -> (r: Result<Value, ParseError>)
        requires
            old(self).offset < old(self).source@.len(),
        ensures
            agrees(
                r,
                members_from(old(self).source@, old(self).offset + 1, Seq::empty()),
                r->Ok_0.tree(),
                *old(self),
                *final(self),
            ),
        decreases old(self).source@.len() - old(self).offset, 0int,
    {
        self.advance();
        let mut object: Object = Object::new();
        let ghost whole = members_from(old(self).source@, old(self).offset + 1, Seq::empty());
        loop
            invariant
                whole == members_from(old(self).source@, old(self).offset + 1, Seq::empty()),
                self.source@ == old(self).source@,
                old(self).offset < self.offset <= self.source@.len(),
                whole == members_from(self.source@, self.offset as int, object@),
            decreases self.source@.len() - self.offset,
        {
            match self.skip_space_and_comments() {
                Ok(()) => {},
                Err(error) => {
                    return Err(error);
                },
            }
            match self.peek() {
                Some(byte) => {
                    if byte == 125 {
                        self.advance();
                        let value: Value = Value::Object(object);
                        assert(value.tree()->Record_0 =~= object@);
                        return Ok(value);
                    }
                },
                None => {},
            }
            let name: String = match self.name() {
                Ok(name) => name,
                Err(error) => {
                    return Err(error);
                },
            };
            match self.colon() {
                Ok(()) => {},
                Err(error) => {
                    return Err(error);
                },
            }
            let value: Value = match self.value() {
                Ok(value) => value,
                Err(error) => {
                    return Err(error);
                },
            };
            match self.separator(125, "expected ',' or '}'") {
                Ok(()) => {},
                Err(error) => {
                    return Err(error);
                },
            }
            object.insert(name, value);
        }
    }

    /// Takes an array, from its opening bracket on.
    fn array(&mut self) -> (r: Result<Value, ParseError>)
        requires
            old(self).offset < old(self).source@.len(),
        ensures
            agrees(
                r,
                items_from(old(self).source@, old(self).offset + 1, Seq::empty()),
                r->Ok_0.tree(),
                *old(self),
                *final(self),
            ),
        decreases old(self).source@.len() - old(self).offset, 0int,
    {
        self.advance();
        let mut values: Vec<Value> = Vec::new();
        assert(trees(values@) =~= Seq::empty());
        let ghost whole = items_from(old(self).source@, old(self).offset + 1, Seq::empty());
        loop
            invariant
                whole == items_from(old(self).source@, old(self).offset + 1, Seq::empty()),
                self.source@ == old(self).source@,
                old(self).offset < self.offset <= self.source@.len(),
                whole == items_from(self.source@, self.offset as int, trees(values@)),
            decreases self.source@.len() - self.offset,
        {
            match self.skip_space_and_comments() {
                Ok(()) => {},
                Err(error) => {
                    return Err(error);
                },
            }
            match self.peek() {
                Some(byte) => {
                    if byte == 93 {
                        self.advance();
                        let value: Value = Value::Array(values);
                        assert(value.tree()->List_0 =~= trees(values@));
                        return Ok(value);
                    }
                },
                None => {},
            }
            let value: Value = match self.value() {
                Ok(value) => value,
                Err(error) => {
                    return Err(error);
                },
            };
            match self.separator(93, "expected ',' or ']'") {
                Ok(()) => {},
                Err(error) => {
                    return Err(error);
                },
            }
            let ghost before = trees(values@);
            values.push(value);
            assert(trees(values@) =~= before.push(value.tree()));
        }
    }
}

proof fn lemma_comment_end(s: Seq<u8>, p: int)
    ensures
        comment_end(s, p) == -1 || p + 2 <= comment_end(s, p) <= s.len(),
    decreases s.len() - p,
{
    if 0 <= p && p + 1 < s.len() && !(s[p] == 42 && s[p + 1] == 47) {
        lemma_comment_end(s, p + 1);
    }
}

fn space(byte: u8) -> (r: bool)
    ensures
        r == is_space(byte),
{
    byte == 32 || byte == 9 || byte == 10 || byte == 12 || byte == 13
}

fn digit(byte: u8) -> (r: bool)
    ensures
        r == is_digit(byte),
{
    48 <= byte && byte <= 57
}

fn identifier_start(byte: u8) -> (r: bool)
    ensures
        r == starts_identifier(byte),
{
    (65 <= byte && byte <= 90) || (97 <= byte && byte <= 122) || byte == 95 || byte == 36
}

fn hex(byte: u8) -> (r: Option<u8>)
    ensures
        r == hex_value(byte),
        r matches Some(value) ==> value < 16,
{
    if 48 <= byte && byte <= 57 {
        Some(byte - 48)
    } else if 97 <= byte && byte <= 102 {
        Some(byte - 87)
    } else if 65 <= byte && byte <= 70 {
        Some(byte - 55)
    } else {
        None
    }
}

/// Parses the relaxed JSON syntax of configuration files: comments, unquoted
/// property names and trailing commas are allowed.
///
/// # Errors
///
/// Returns the byte offset and reason when the input is malformed.
pub fn parse_value(source: &str) -> (r: Result<Value, ParseError>)
    ensures
        match r {
            Ok(value) => parsed(vstd::utf8::encode_utf8(source@)) == Ok::<_, Fault>(value.tree()),
            Err(error) => parsed(vstd::utf8::encode_utf8(source@)) == Err::<Tree, _>(error@),
        },
{
    let mut parser = Parser { source: source.as_bytes(), offset: 0 };
    let value: Value = match parser.value() {
        Ok(value) => value,
        Err(error) => {
            return Err(error);
        },
    };
    match parser.skip_space_and_comments() {
        Ok(()) => {},
        Err(error) => {
            return Err(error);
        },
    }
    if parser.peek().is_some() {
        return Err(parser.error("unexpected characters after value"));
    }
    Ok(value)
}

proof fn lemma_after_spaces(s: Seq<u8>, p: int)
    ensures
        after_spaces(s, p) >= p,
        after_spaces(s, after_spaces(s, p)) == after_spaces(s, p),
    decreases s.len() - p,
{
    if 0 <= p < s.len() && is_space(s[p]) {
        lemma_after_spaces(s, p + 1);
    }
}

proof fn lemma_after_blank(s: Seq<u8>, p: int)
    ensures
        after_blank(s, p) matches Ok(q) ==> after_blank(s, q) == Ok::<int, Fault>(q),
    decreases s.len() - p,
{
    let q = after_spaces(s, p);
    lemma_after_spaces(s, p);
    if 0 <= p <= q && q + 1 < s.len() && s[q] == 47 && s[q + 1] == 47 {
        let e = line_end(s, q + 2);
        lemma_line_end(s, q + 2);
        if q + 2 <= e <= s.len() {
            lemma_after_blank(s, e);
        }
    } else if 0 <= p <= q && q + 1 < s.len() && s[q] == 47 && s[q + 1] == 42 {
        let e = comment_end(s, q + 2);
        if q + 2 <= e <= s.len() {
            lemma_after_blank(s, e);
        }
    }
}

proof fn lemma_line_end(s: Seq<u8>, p: int)
    requires
        0 <= p <= s.len(),
    ensures
        p <= line_end(s, p) <= s.len(),
    decreases s.len() - p,
{
    if p < s.len() && s[p] != 10 {
        lemma_line_end(s, p + 1);
    }
}

/// Blanks and comments in front of a value do not change it.
pub proof fn law_leading_blank_is_ignored(s: Seq<u8>, p: int, q: int)
    requires
        after_blank(s, p) == Ok::<int, Fault>(q),
        p <= q,
    ensures
        value_at(s, p) == value_at(s, q),
{
    lemma_after_blank(s, p);
}

#[derive(Clone, Copy, Debug, PartialEq, Eq, Structural)]
pub enum Console {
    Virtio,
    Uart,
}

impl Default for Console {
    fn default() -> (r: Self)
        ensures
            r is Virtio,
    {
        Console::Virtio
    }
}

#[derive(Clone, Debug, PartialEq, Eq)]
pub struct DriveConfig {
    pub file: String,
    pub device: Option<String>,
}

#[derive(Clone, Debug, PartialEq, Eq)]
pub enum FilesystemBackend {
    File(String),
    Socket(String),
    JavaScript9p,
    Server(String),
}

#[derive(Clone, Debug, PartialEq, Eq)]
pub struct FilesystemConfig {
    pub backend: FilesystemBackend,
    pub tag: String,
}

#[derive(Clone, Debug, PartialEq, Eq)]
pub struct NetworkConfig {
    pub driver: String,
    pub interface_name: Option<String>,
}

#[derive(Clone, Debug, PartialEq, Eq)]
pub struct DisplayConfig {
    pub device: String,
    pub width: i32,
    pub height: i32,
}

#[derive(Clone, Debug, PartialEq, Eq)]
pub struct VmConfig {
    pub machine: String,
    pub memory_size_mib: i32,
    pub bios: Option<String>,
    pub kernel: Option<String>,
    pub initrd: Option<String>,
    pub command_line: Option<String>,
    pub console: Console,
    pub uart_output: bool,
    pub drives: Vec<DriveConfig>,
    pub filesystems: Vec<FilesystemConfig>,
    pub networks: Vec<NetworkConfig>,
    pub display: Option<DisplayConfig>,
    pub input_device: Option<String>,
    pub rtc_local_time: bool,
}

/// The model of a drive entry.
pub struct DriveModel {
    pub file: Seq<char>,
    pub device: Option<Seq<char>>,
}

/// The model of a filesystem backend.
pub enum BackendModel {
    File(Seq<char>),
    Socket(Seq<char>),
    JavaScript9p,
    Server(Seq<char>),
}

/// The model of a filesystem entry.
pub struct FilesystemModel {
    pub backend: BackendModel,
    pub tag: Seq<char>,
}

/// The model of a network entry.
pub struct NetworkEntry {
    pub driver: Seq<char>,
    pub interface_name: Option<Seq<char>>,
}

/// The model of a display entry.
pub struct DisplayModel {
    pub device: Seq<char>,
    pub width: i32,
    pub height: i32,
}

/// The model of a configuration.
#[verifier::ext_equal]
pub struct VmModel {
    pub machine: Seq<char>,
    pub memory_size_mib: i32,
    pub bios: Option<Seq<char>>,
    pub kernel: Option<Seq<char>>,
    pub initrd: Option<Seq<char>>,
    pub command_line: Option<Seq<char>>,
    pub console: Console,
    pub uart_output: bool,
    pub drives: Seq<DriveModel>,
    pub filesystems: Seq<FilesystemModel>,
    pub networks: Seq<NetworkEntry>,
    pub display: Option<DisplayModel>,
    pub input_device: Option<Seq<char>>,
    pub rtc_local_time: bool,
}

/// The characters of a text that may be missing.
pub open spec fn chars_of_option(value: Option<String>) -> Option<Seq<char>> {
    match value {
        Some(value) => Some(value@),
        None => None,
    }
}

impl View for DriveConfig {
    type V = DriveModel;

    open spec fn view(&self) -> DriveModel {
        DriveModel { file: self.file@, device: chars_of_option(self.device) }
    }
}

impl View for FilesystemBackend {
    type V = BackendModel;

    open spec fn view(&self) -> BackendModel {
        match self {
            FilesystemBackend::File(value) => BackendModel::File(value@),
            FilesystemBackend::Socket(value) => BackendModel::Socket(value@),
            FilesystemBackend::JavaScript9p => BackendModel::JavaScript9p,
            FilesystemBackend::Server(value) => BackendModel::Server(value@),
        }
    }
}

impl View for FilesystemConfig {
    type V = FilesystemModel;

    open spec fn view(&self) -> FilesystemModel {
        FilesystemModel { backend: self.backend@, tag: self.tag@ }
    }
}

impl View for NetworkConfig {
    type V = NetworkEntry;

    open spec fn view(&self) -> NetworkEntry {
        NetworkEntry { driver: self.driver@, interface_name: chars_of_option(self.interface_name) }
    }
}

impl View for DisplayConfig {
    type V = DisplayModel;

    open spec fn view(&self) -> DisplayModel {
        DisplayModel { device: self.device@, width: self.width, height: self.height }
    }
}

impl View for VmConfig {
    type V = VmModel;

    open spec fn view(&self) -> VmModel {
        VmModel {
            machine: self.machine@,
            memory_size_mib: self.memory_size_mib,
            bios: chars_of_option(self.bios),
            kernel: chars_of_option(self.kernel),
            initrd: chars_of_option(self.initrd),
            command_line: chars_of_option(self.command_line),
            console: self.console,
            uart_output: self.uart_output,
            drives: drive_models(self.drives@),
            filesystems: filesystem_models(self.filesystems@),
            networks: network_entries(self.networks@),
            display: match self.display {
                Some(display) => Some(display@),
                None => None,
            },
            input_device: chars_of_option(self.input_device),
            rtc_local_time: self.rtc_local_time,
        }
    }
}

pub open spec fn drive_models(drives: Seq<DriveConfig>) -> Seq<DriveModel> {
    drives.map_values(|drive: DriveConfig| drive@)
}

pub open spec fn filesystem_models(filesystems: Seq<FilesystemConfig>) -> Seq<FilesystemModel> {
    filesystems.map_values(|filesystem: FilesystemConfig| filesystem@)
}

pub open spec fn network_entries(networks: Seq<NetworkConfig>) -> Seq<NetworkEntry> {
    networks.map_values(|network: NetworkConfig| network@)
}

#[derive(Clone, Debug, PartialEq, Eq)]
pub struct ConfigError(pub String);

/// The members of a record, as a schema sees them.
pub type Members = Seq<(Seq<char>, Tree)>;

pub open spec fn missing(name: Seq<char>) -> Seq<char> {
    "missing '"@ + name + "'"@
}

pub open spec fn integer_member(m: Members, name: Seq<char>) -> Result<i32, Seq<char>> {
    match member(m, name) {
        None => Err(missing(name)),
        Some(Tree::Integer(value)) => Ok(value),
        Some(_) => Err(name + " must be an integer"@),
    }
}

pub open spec fn optional_text(m: Members, name: Seq<char>) -> Result<Option<Seq<char>>, Seq<char>> {
    match member(m, name) {
        None => Ok(None),
        Some(Tree::Text(value)) => Ok(Some(value)),
        Some(_) => Err(name + " must be a string"@),
    }
}

pub open spec fn text_member(m: Members, name: Seq<char>) -> Result<Seq<char>, Seq<char>> {
    match optional_text(m, name) {
        Err(error) => Err(error),
        Ok(None) => Err(missing(name)),
        Ok(Some(value)) => Ok(value),
    }
}

/// A flag that is off unless it is given.
pub open spec fn flag(m: Members, name: Seq<char>) -> Result<bool, Seq<char>> {
    match member(m, name) {
        None => Ok(false),
        Some(Tree::Bool(value)) => Ok(value),
        Some(_) => Err(name + " must be a boolean"@),
    }
}

pub open spec fn record(value: Tree, name: Seq<char>) -> Result<Members, Seq<char>> {
    match value {
        Tree::Record(members) => Ok(members),
        _ => Err(name + " must be an object"@),
    }
}

/// The name of a numbered entry.
pub open spec fn numbered(prefix: Seq<char>, index: nat) -> Seq<char> {
    prefix + text::decimal(index)
}

pub open spec fn drive_entry(m: Members) -> Result<DriveModel, Seq<char>> {
    match text_member(m, "file"@) {
        Err(error) => Err(error),
        Ok(file) => match optional_text(m, "device"@) {
            Err(error) => Err(error),
            Ok(device) => Ok(DriveModel { file, device }),
        },
    }
}

/// The consecutive drives from `index` on, behind those in `so_far`.
pub open spec fn drives_from(m: Members, index: nat, so_far: Seq<DriveModel>) -> Result<
    Seq<DriveModel>,
    Seq<char>,
>
    decreases MAX_DRIVES - index,
{
    let name = numbered("drive"@, index);
    if index >= MAX_DRIVES {
        Ok(so_far)
    } else {
        match member(m, name) {
            None => Ok(so_far),
            Some(value) => match record(value, name) {
                Err(error) => Err(error),
                Ok(entry) => match drive_entry(entry) {
                    Err(error) => Err(error),
                    Ok(drive) => drives_from(m, index + 1, so_far.push(drive)),
                },
            },
        }
    }
}

/// The tag of a filesystem that names none.
pub open spec fn default_tag(index: nat) -> Seq<char> {
    if index == 0 {
        "/dev/root"@
    } else {
        numbered("/dev/root"@, index)
    }
}

/// A filesystem selects exactly one backend.
pub open spec fn filesystem_entry(m: Members, name: Seq<char>, index: nat) -> Result<
    FilesystemModel,
    Seq<char>,
> {
    match optional_text(m, "file"@) {
        Err(error) => Err(error),
        Ok(file) => match optional_text(m, "socket"@) {
            Err(error) => Err(error),
            Ok(socket) => match flag(m, "js9p"@) {
                Err(error) => Err(error),
                Ok(js9p) => match optional_text(m, "server"@) {
                    Err(error) => Err(error),
                    Ok(server) => match backend_of(file, socket, js9p, server) {
                        None => Err(name + " must select exactly one backend"@),
                        Some(backend) => match optional_text(m, "tag"@) {
                            Err(error) => Err(error),
                            Ok(tag) => Ok(
                                FilesystemModel {
                                    backend,
                                    tag: match tag {
                                        Some(tag) => tag,
                                        None => default_tag(index),
                                    },
                                },
                            ),
                        },
                    },
                },
            },
        },
    }
}

pub open spec fn backend_of(
    file: Option<Seq<char>>,
    socket: Option<Seq<char>>,
    js9p: bool,
    server: Option<Seq<char>>,
) -> Option<BackendModel> {
    match (file, socket, js9p, server) {
        (Some(file), None, false, None) => Some(BackendModel::File(file)),
        (None, Some(socket), false, None) => Some(BackendModel::Socket(socket)),
        (None, None, true, None) => Some(BackendModel::JavaScript9p),
        (None, None, false, Some(server)) => Some(BackendModel::Server(server)),
        _ => None,
    }
}

/// The consecutive filesystems from `index` on, behind those in `so_far`.
pub open spec fn filesystems_from(m: Members, index: nat, so_far: Seq<FilesystemModel>) -> Result<
    Seq<FilesystemModel>,
    Seq<char>,
>
    decreases MAX_FILESYSTEMS - index,
{
    let name = numbered("fs"@, index);
    if index >= MAX_FILESYSTEMS {
        Ok(so_far)
    } else {
        match member(m, name) {
            None => Ok(so_far),
            Some(value) => match record(value, name) {
                Err(error) => Err(error),
                Ok(entry) => match filesystem_entry(entry, name, index) {
                    Err(error) => Err(error),
                    Ok(filesystem) => filesystems_from(m, index + 1, so_far.push(filesystem)),
                },
            },
        }
    }
}

/// A network entry; a tap interface has to be named.
pub open spec fn network_entry(m: Members) -> Result<NetworkEntry, Seq<char>> {
    match text_member(m, "driver"@) {
        Err(error) => Err(error),
        Ok(driver) => if driver == "tap"@ {
            match text_member(m, "ifname"@) {
                Err(error) => Err(error),
                Ok(name) => Ok(NetworkEntry { driver, interface_name: Some(name) }),
            }
        } else {
            match optional_text(m, "ifname"@) {
                Err(error) => Err(error),
                Ok(name) => Ok(NetworkEntry { driver, interface_name: name }),
            }
        },
    }
}

/// The networks of a configuration: `eth0`, if it is there.
pub open spec fn networks_of(m: Members) -> Result<Seq<NetworkEntry>, Seq<char>> {
    match member(m, "eth0"@) {
        None => Ok(Seq::empty()),
        Some(value) => match record(value, "eth0"@) {
            Err(error) => Err(error),
            Ok(entry) => match network_entry(entry) {
                Err(error) => Err(error),
                Ok(network) => Ok(seq![network]),
            },
        },
    }
}

/// An entry beyond the limit is an error.
pub open spec fn over_limit(m: Members, prefix: Seq<char>, limit: nat) -> Option<Seq<char>> {
    if member(m, numbered(prefix, limit)) is Some {
        Some("too many "@ + prefix + " entries"@)
    } else {
        None
    }
}

pub open spec fn display_of(m: Members) -> Result<Option<DisplayModel>, Seq<char>> {
    match member(m, "display0"@) {
        None => Ok(None),
        Some(value) => match record(value, "display0"@) {
            Err(error) => Err(error),
            Ok(entry) => match text_member(entry, "device"@) {
                Err(error) => Err(error),
                Ok(device) => match integer_member(entry, "width"@) {
                    Err(error) => Err(error),
                    Ok(width) => match integer_member(entry, "height"@) {
                        Err(error) => Err(error),
                        Ok(height) => Ok(Some(DisplayModel { device, width, height })),
                    },
                },
            },
        },
    }
}

pub open spec fn console_of(m: Members) -> Result<Console, Seq<char>> {
    match optional_text(m, "console"@) {
        Err(error) => Err(error),
        Ok(None) => Ok(Console::Virtio),
        Ok(Some(name)) => if name == "virtio"@ {
            Ok(Console::Virtio)
        } else if name == "uart"@ {
            Ok(Console::Uart)
        } else {
            Err("console must be 'virtio' or 'uart'"@)
        },
    }
}

/// What identifies a machine: version, machine, memory size and console.
pub struct HeadModel {
    pub machine: Seq<char>,
    pub memory_size_mib: i32,
    pub console: Console,
}

pub open spec fn head_of(m: Members) -> Result<HeadModel, Seq<char>> {
    match integer_member(m, "version"@) {
        Err(error) => Err(error),
        Ok(version) => if version != CONFIG_VERSION {
            Err("unsupported configuration version "@ + text::signed(version as int))
        } else {
            match text_member(m, "machine"@) {
                Err(error) => Err(error),
                Ok(machine) => match integer_member(m, "memory_size"@) {
                    Err(error) => Err(error),
                    Ok(memory_size_mib) => match console_of(m) {
                        Err(error) => Err(error),
                        Ok(console) => Ok(HeadModel { machine, memory_size_mib, console }),
                    },
                },
            }
        },
    }
}

/// The devices of a machine.
pub struct DevicesModel {
    pub drives: Seq<DriveModel>,
    pub filesystems: Seq<FilesystemModel>,
    pub networks: Seq<NetworkEntry>,
    pub display: Option<DisplayModel>,
}

pub open spec fn devices_of(m: Members) -> Result<DevicesModel, Seq<char>> {
    match drives_from(m, 0, Seq::empty()) {
        Err(error) => Err(error),
        Ok(drives) => match over_limit(m, "drive"@, MAX_DRIVES as nat) {
            Some(error) => Err(error),
            None => match filesystems_from(m, 0, Seq::empty()) {
                Err(error) => Err(error),
                Ok(filesystems) => match over_limit(m, "fs"@, MAX_FILESYSTEMS as nat) {
                    Some(error) => Err(error),
                    None => match networks_of(m) {
                        Err(error) => Err(error),
                        Ok(networks) => match over_limit(
                            m,
                            "eth"@,
                            MAX_NETWORK_INTERFACES as nat,
                        ) {
                            Some(error) => Err(error),
                            None => match display_of(m) {
                                Err(error) => Err(error),
                                Ok(display) => Ok(
                                    DevicesModel { drives, filesystems, networks, display },
                                ),
                            },
                        },
                    },
                },
            },
        },
    }
}

/// The plain options of a machine.
pub struct OptionsModel {
    pub bios: Option<Seq<char>>,
    pub kernel: Option<Seq<char>>,
    pub initrd: Option<Seq<char>>,
    pub command_line: Option<Seq<char>>,
    pub uart_output: bool,
    pub input_device: Option<Seq<char>>,
    pub rtc_local_time: bool,
}

pub open spec fn options_of(m: Members) -> Result<OptionsModel, Seq<char>> {
    match optional_text(m, "bios"@) {
        Err(error) => Err(error),
        Ok(bios) => match optional_text(m, "kernel"@) {
            Err(error) => Err(error),
            Ok(kernel) => match optional_text(m, "initrd"@) {
                Err(error) => Err(error),
                Ok(initrd) => match optional_text(m, "cmdline"@) {
                    Err(error) => Err(error),
                    Ok(command_line) => match flag(m, "uart_output"@) {
                        Err(error) => Err(error),
                        Ok(uart_output) => match optional_text(m, "input_device"@) {
                            Err(error) => Err(error),
                            Ok(input_device) => match flag(m, "rtc_local_time"@) {
                                Err(error) => Err(error),
                                Ok(rtc_local_time) => Ok(
                                    OptionsModel {
                                        bios,
                                        kernel,
                                        initrd,
                                        command_line,
                                        uart_output,
                                        input_device,
                                        rtc_local_time,
                                    },
                                ),
                            },
                        },
                    },
                },
            },
        },
    }
}

/// The configuration that a record describes, or what is wrong with it.
pub open spec fn machine_of(m: Members) -> Result<VmModel, Seq<char>> {
    match head_of(m) {
        Err(error) => Err(error),
        Ok(head) => match devices_of(m) {
            Err(error) => Err(error),
            Ok(devices) => match options_of(m) {
                Err(error) => Err(error),
                Ok(options) => Ok(
                    VmModel {
                        machine: head.machine,
                        memory_size_mib: head.memory_size_mib,
                        bios: options.bios,
                        kernel: options.kernel,
                        initrd: options.initrd,
                        command_line: options.command_line,
                        console: head.console,
                        uart_output: options.uart_output,
                        drives: devices.drives,
                        filesystems: devices.filesystems,
                        networks: devices.networks,
                        display: devices.display,
                        input_device: options.input_device,
                        rtc_local_time: options.rtc_local_time,
                    },
                ),
            },
        },
    }
}

/// The configuration that a source describes.
pub open spec fn configuration(s: Seq<u8>) -> Result<VmModel, Seq<char>> {
    match parsed(s) {
        Err(fault) => Err(fault.text()),
        Ok(Tree::Record(members)) => machine_of(members),
        Ok(_) => Err("configuration must be an object"@),
    }
}

/// Whether a reader of a member gave what its model says.
spec fn reads_as<T, U>(r: Result<T, ConfigError>, expected: Result<U, Seq<char>>, value: U) -> bool {
    match r {
        Ok(_) => expected == Ok::<_, Seq<char>>(value),
        Err(error) => expected == Err::<U, _>(error.0@),
    }
}

fn missing_error(name: &str) -> (r: ConfigError)
    ensures
        r.0@ == missing(name@),
{
    let mut out: String = text::joined("missing '", name);
    out.append("'");
    ConfigError(out)
}

fn required_integer(object: &Object, name: &str) -> (r: Result<i32, ConfigError>)
    ensures
        reads_as(r, integer_member(object@, name@), r->Ok_0),
{
    match object.get(name) {
        None => Err(missing_error(name)),
        Some(value) => match value.as_integer() {
            Some(value) => Ok(value),
            None => Err(ConfigError(text::joined(name, " must be an integer"))),
        },
    }
}

fn optional_string(object: &Object, name: &str) -> (r: Result<Option<String>, ConfigError>)
    ensures
        reads_as(r, optional_text(object@, name@), chars_of_option(r->Ok_0)),
{
    match object.get(name) {
        None => Ok(None),
        Some(value) => match value.as_str() {
            Some(value) => Ok(Some(value.to_owned())),
            None => Err(ConfigError(text::joined(name, " must be a string"))),
        },
    }
}

fn required_string(object: &Object, name: &str) -> (r: Result<String, ConfigError>)
    ensures
        reads_as(r, text_member(object@, name@), r->Ok_0@),
{
    match optional_string(object, name) {
        Err(error) => Err(error),
        Ok(None) => Err(missing_error(name)),
        Ok(Some(value)) => Ok(value),
    }
}

fn optional_bool(object: &Object, name: &str) -> (r: Result<bool, ConfigError>)
    ensures
        reads_as(r, flag(object@, name@), r->Ok_0),
{
    match object.get(name) {
        None => Ok(false),
        Some(value) => match value {
            Value::Bool(value) => Ok(*value),
            _ => Err(ConfigError(text::joined(name, " must be a boolean"))),
        },
    }
}

fn require_object<'a>(value: &'a Value, name: &str) -> (r: Result<&'a Object, ConfigError>)
    ensures
        reads_as(r, record(value.tree(), name@), r->Ok_0@),
{
    match value.as_object() {
        Some(object) => Ok(object),
        None => Err(ConfigError(text::joined(name, " must be an object"))),
    }
}

fn numbered_name(prefix: &str, index: usize) -> (r: String)
    ensures
        r@ == numbered(prefix@, index as nat),
{
    let number: String = text::decimal_text(index as u64);
    text::joined(prefix, number.as_str())
}

fn reject_over_limit(object: &Object, prefix: &str, limit: usize) -> (r: Result<(), ConfigError>)
    ensures
        match r {
            Ok(_) => over_limit(object@, prefix@, limit as nat) is None,
            Err(error) => over_limit(object@, prefix@, limit as nat) == Some(error.0@),
        },
{
    let name: String = numbered_name(prefix, limit);
    if object.get(name.as_str()).is_some() {
        let mut out: String = text::joined("too many ", prefix);
        out.append(" entries");
        Err(ConfigError(out))
    } else {
        Ok(())
    }
}

fn default_fs_tag(index: usize) -> (r: String)
    ensures
        r@ == default_tag(index as nat),
{
    if index == 0 {
        "/dev/root".to_owned()
    } else {
        numbered_name("/dev/root", index)
    }
}

fn parse_drive(entry: &Object) -> (r: Result<DriveConfig, ConfigError>)
    ensures
        reads_as(r, drive_entry(entry@), r->Ok_0@),
{
    let file: String = match required_string(entry, "file") {
        Ok(file) => file,
        Err(error) => {
            return Err(error);
        },
    };
    match optional_string(entry, "device") {
        Ok(device) => Ok(DriveConfig { file, device }),
        Err(error) => Err(error),
    }
}

fn parse_drives(object: &Object) -> (r: Result<Vec<DriveConfig>, ConfigError>)
    ensures
        reads_as(r, drives_from(object@, 0, Seq::empty()), drive_models(r->Ok_0@)),
{
    let mut drives: Vec<DriveConfig> = Vec::new();
    let mut index: usize = 0;
    assert(drive_models(drives@) =~= Seq::empty());
    let ghost whole = drives_from(object@, 0, Seq::empty());
    while index < MAX_DRIVES
        invariant
            index <= MAX_DRIVES,
            whole == drives_from(object@, 0, Seq::empty()),
            whole == drives_from(object@, index as nat, drive_models(drives@)),
        decreases MAX_DRIVES - index,
    {
        let name: String = numbered_name("drive", index);
        let value: &Value = match object.get(name.as_str()) {
            Some(value) => value,
            None => {
                return Ok(drives);
            },
        };
        let entry: &Object = match require_object(value, name.as_str()) {
            Ok(entry) => entry,
            Err(error) => {
                return Err(error);
            },
        };
        let ghost before = drive_models(drives@);
        match parse_drive(entry) {
            Ok(drive) => {
                drives.push(drive);
                assert(drive_models(drives@) =~= before.push(drive@));
            },
            Err(error) => {
                return Err(error);
            },
        }
        index = index + 1;
    }
    Ok(drives)
}

fn parse_filesystem(entry: &Object, name: &str, index: usize) -> (r: Result<
    FilesystemConfig,
    ConfigError,
>)
    ensures
        reads_as(r, filesystem_entry(entry@, name@, index as nat), r->Ok_0@),
{
    let file: Option<String> = match optional_string(entry, "file") {
        Ok(value) => value,
        Err(error) => {
            return Err(error);
        },
    };
    let socket: Option<String> = match optional_string(entry, "socket") {
        Ok(value) => value,
        Err(error) => {
            return Err(error);
        },
    };
    let js9p: bool = match optional_bool(entry, "js9p") {
        Ok(value) => value,
        Err(error) => {
            return Err(error);
        },
    };
    let server: Option<String> = match optional_string(entry, "server") {
        Ok(value) => value,
        Err(error) => {
            return Err(error);
        },
    };
    let backend: FilesystemBackend = match (file, socket, js9p, server) {
        (Some(file), None, false, None) => FilesystemBackend::File(file),
        (None, Some(socket), false, None) => FilesystemBackend::Socket(socket),
        (None, None, true, None) => FilesystemBackend::JavaScript9p,
        (None, None, false, Some(server)) => FilesystemBackend::Server(server),
        _ => {
            return Err(ConfigError(text::joined(name, " must select exactly one backend")));
        },
    };
    match optional_string(entry, "tag") {
        Ok(Some(tag)) => Ok(FilesystemConfig { backend, tag }),
        Ok(None) => Ok(FilesystemConfig { backend, tag: default_fs_tag(index) }),
        Err(error) => Err(error),
    }
}

fn parse_filesystems(object: &Object) -> (r: Result<Vec<FilesystemConfig>, ConfigError>)
    ensures
        reads_as(r, filesystems_from(object@, 0, Seq::empty()), filesystem_models(r->Ok_0@)),
{
    let mut filesystems: Vec<FilesystemConfig> = Vec::new();
    let mut index: usize = 0;
    assert(filesystem_models(filesystems@) =~= Seq::empty());
    let ghost whole = filesystems_from(object@, 0, Seq::empty());
    while index < MAX_FILESYSTEMS
        invariant
            index <= MAX_FILESYSTEMS,
            whole == filesystems_from(object@, 0, Seq::empty()),
            whole == filesystems_from(object@, index as nat, filesystem_models(filesystems@)),
        decreases MAX_FILESYSTEMS - index,
    {
        let name: String = numbered_name("fs", index);
        let value: &Value = match object.get(name.as_str()) {
            Some(value) => value,
            None => {
                return Ok(filesystems);
            },
        };
        let entry: &Object = match require_object(value, name.as_str()) {
            Ok(entry) => entry,
            Err(error) => {
                return Err(error);
            },
        };
        let ghost before = filesystem_models(filesystems@);
        match parse_filesystem(entry, name.as_str(), index) {
            Ok(filesystem) => {
                filesystems.push(filesystem);
                assert(filesystem_models(filesystems@) =~= before.push(filesystem@));
            },
            Err(error) => {
                return Err(error);
            },
        }
        index = index + 1;
    }
    Ok(filesystems)
}

fn parse_network(entry: &Object) -> (r: Result<NetworkConfig, ConfigError>)
    ensures
        reads_as(r, network_entry(entry@), r->Ok_0@),
{
    let driver: String = match required_string(entry, "driver") {
        Ok(driver) => driver,
        Err(error) => {
            return Err(error);
        },
    };
    if text::same(driver.as_str(), "tap") {
        match required_string(entry, "ifname") {
            Ok(name) => Ok(NetworkConfig { driver, interface_name: Some(name) }),
            Err(error) => Err(error),
        }
    } else {
        match optional_string(entry, "ifname") {
            Ok(interface_name) => Ok(NetworkConfig { driver, interface_name }),
            Err(error) => Err(error),
        }
    }
}

fn parse_networks(object: &Object) -> (r: Result<Vec<NetworkConfig>, ConfigError>)
    ensures
        reads_as(r, networks_of(object@), network_entries(r->Ok_0@)),
{
    let mut networks: Vec<NetworkConfig> = Vec::new();
    match object.get("eth0") {
        None => {
            assert(network_entries(networks@) =~= Seq::empty());
            Ok(networks)
        },
        Some(value) => match require_object(value, "eth0") {
            Err(error) => Err(error),
            Ok(entry) => match parse_network(entry) {
                Err(error) => Err(error),
                Ok(network) => {
                    networks.push(network);
                    assert(network_entries(networks@) =~= seq![network@]);
                    Ok(networks)
                },
            },
        },
    }
}

/// The model of a display entry that may be missing.
spec fn display_model(display: Option<DisplayConfig>) -> Option<DisplayModel> {
    match display {
        Some(display) => Some(display@),
        None => None,
    }
}

fn parse_display(object: &Object) -> (r: Result<Option<DisplayConfig>, ConfigError>)
    ensures
        reads_as(r, display_of(object@), display_model(r->Ok_0)),
{
    let entry: &Object = match object.get("display0") {
        None => {
            return Ok(None);
        },
        Some(value) => match require_object(value, "display0") {
            Ok(entry) => entry,
            Err(error) => {
                return Err(error);
            },
        },
    };
    let device: String = match required_string(entry, "device") {
        Ok(device) => device,
        Err(error) => {
            return Err(error);
        },
    };
    let width: i32 = match required_integer(entry, "width") {
        Ok(width) => width,
        Err(error) => {
            return Err(error);
        },
    };
    match required_integer(entry, "height") {
        Ok(height) => Ok(Some(DisplayConfig { device, width, height })),
        Err(error) => Err(error),
    }
}

fn parse_console(object: &Object) -> (r: Result<Console, ConfigError>)
    ensures
        reads_as(r, console_of(object@), r->Ok_0),
{
    match optional_string(object, "console") {
        Err(error) => Err(error),
        Ok(None) => Ok(Console::Virtio),
        Ok(Some(name)) => {
            if text::same(name.as_str(), "virtio") {
                Ok(Console::Virtio)
            } else if text::same(name.as_str(), "uart") {
                Ok(Console::Uart)
            } else {
                Err(ConfigError("console must be 'virtio' or 'uart'".to_owned()))
            }
        },
    }
}

impl VmConfig {
    /// Parses and validates a version-one virtual machine configuration.
    ///
    /// # Errors
    ///
    /// Returns an error for malformed input, missing required properties, or
    /// properties whose types or combinations violate the configuration schema.
    pub fn parse(source: &str) -> (r: Result<Self, ConfigError>)
        ensures
            match r {
                Ok(config) => configuration(vstd::utf8::encode_utf8(source@)) == Ok::<
                    _,
                    Seq<char>,
                >(config@),
                Err(error) => configuration(vstd::utf8::encode_utf8(source@)) == Err::<VmModel, _>(
                    error.0@,
                ),
            },
    {
        let root: Value = match parse_value(source) {
            Ok(root) => root,
            Err(error) => {
                return Err(ConfigError(error.describe()));
            },
        };
        match root.as_object() {
            Some(object) => VmConfig::from_object(object),
            None => Err(ConfigError("configuration must be an object".to_owned())),
        }
    }

    fn from_object(object: &Object) -> (r: Result<Self, ConfigError>)
        ensures
            reads_as(r, machine_of(object@), r->Ok_0@),
    {
        let version: i32 = match required_integer(object, "version") {
            Ok(version) => version,
            Err(error) => {
                return Err(error);
            },
        };
        if version != CONFIG_VERSION {
            let number: String = text::signed_text(version);
            return Err(
                ConfigError(text::joined("unsupported configuration version ", number.as_str())),
            );
        }
        let machine: String = match required_string(object, "machine") {
            Ok(machine) => machine,
            Err(error) => {
                return Err(error);
            },
        };
        let memory_size_mib: i32 = match required_integer(object, "memory_size") {
            Ok(memory_size_mib) => memory_size_mib,
            Err(error) => {
                return Err(error);
            },
        };
        let console: Console = match parse_console(object) {
            Ok(console) => console,
            Err(error) => {
                return Err(error);
            },
        };
        let drives: Vec<DriveConfig> = match parse_drives(object) {
            Ok(drives) => drives,
            Err(error) => {
                return Err(error);
            },
        };
        match reject_over_limit(object, "drive", MAX_DRIVES) {
            Ok(()) => {},
            Err(error) => {
                return Err(error);
            },
        }
        let filesystems: Vec<FilesystemConfig> = match parse_filesystems(object) {
            Ok(filesystems) => filesystems,
            Err(error) => {
                return Err(error);
            },
        };
        match reject_over_limit(object, "fs", MAX_FILESYSTEMS) {
            Ok(()) => {},
            Err(error) => {
                return Err(error);
            },
        }
        let networks: Vec<NetworkConfig> = match parse_networks(object) {
            Ok(networks) => networks,
            Err(error) => {
                return Err(error);
            },
        };
        match reject_over_limit(object, "eth", MAX_NETWORK_INTERFACES) {
            Ok(()) => {},
            Err(error) => {
                return Err(error);
            },
        }
        let display: Option<DisplayConfig> = match parse_display(object) {
            Ok(display) => display,
            Err(error) => {
                return Err(error);
            },
        };
        let bios: Option<String> = match optional_string(object, "bios") {
            Ok(value) => value,
            Err(error) => {
                return Err(error);
            },
        };
        let kernel: Option<String> = match optional_string(object, "kernel") {
            Ok(value) => value,
            Err(error) => {
                return Err(error);
            },
        };
        let initrd: Option<String> = match optional_string(object, "initrd") {
            Ok(value) => value,
            Err(error) => {
                return Err(error);
            },
        };
        let command_line: Option<String> = match optional_string(object, "cmdline") {
            Ok(value) => value,
            Err(error) => {
                return Err(error);
            },
        };
        let uart_output: bool = match optional_bool(object, "uart_output") {
            Ok(value) => value,
            Err(error) => {
                return Err(error);
            },
        };
        let input_device: Option<String> = match optional_string(object, "input_device") {
            Ok(value) => value,
            Err(error) => {
                return Err(error);
            },
        };
        let rtc_local_time: bool = match optional_bool(object, "rtc_local_time") {
            Ok(value) => value,
            Err(error) => {
                return Err(error);
            },
        };
        Ok(
            VmConfig {
                machine,
                memory_size_mib,
                bios,
                kernel,
                initrd,
                command_line,
                console,
                uart_output,
                drives,
                filesystems,
                networks,
                display,
                input_device,
                rtc_local_time,
            },
        )
    }

    /// Appends to the command line, or replaces it if the addition starts with
    /// an exclamation mark.
    pub fn apply_command_line(&mut self, addition: &str)
        ensures
            final(self)@ == old(self)@.with_command_line(addition@),
    {
        if text::starts_with_char(addition, '!') {
            self.command_line = Some(text::without_first(addition));
            return;
        }
        let mut line: String = match &self.command_line {
            Some(current) => current.clone(),
            None => String::new(),
        };
        line.append(" ");
        line.append(addition);
        self.command_line = Some(line);
        proof {
            reveal_strlit("");
            assert(old(self).command_line is None ==> line@ =~= Seq::empty() + " "@ + addition@);
        }
    }
}

impl VmModel {
    /// A configuration with an addition to its command line.
    pub open spec fn with_command_line(self, addition: Seq<char>) -> VmModel {
        VmModel {
            command_line: Some(
                if addition.len() > 0 && addition[0] == '!' {
                    addition.skip(1)
                } else {
                    (match self.command_line {
                        Some(current) => current,
                        None => Seq::empty(),
                    }) + " "@ + addition
                },
            ),
            ..self
        }
    }
}

/// The place of an asset: next to the configuration, unless its path is
/// absolute or names a scheme.
pub open spec fn asset_path(config_path: Option<Seq<char>>, asset: Seq<char>) -> Seq<char> {
    match config_path {
        None => asset,
        Some(config) => if asset.contains(':') || (asset.len() > 0 && asset[0] == '/') {
            asset
        } else {
            text::through_last(config, '/') + asset
        },
    }
}

#[must_use]
pub fn resolve_asset_path(config_path: Option<&str>, asset: &str) -> (r: String)
    ensures
        r@ == asset_path(
            match config_path {
                Some(path) => Some(path@),
                None => None,
            },
            asset@,
        ),
{
    let path: &str = match config_path {
        Some(path) => path,
        None => {
            return asset.to_owned();
        },
    };
    if text::has_char(asset, ':') || text::starts_with_char(asset, '/') {
        return asset.to_owned();
    }
    match text::up_to_last(path, '/') {
        Some(directory) => text::joined(directory.as_str(), asset),
        None => {
            proof {
                text::lemma_last_place(path@, '/');
            }
            assert(text::through_last(path@, '/') + asset@ =~= asset@);
            asset.to_owned()
        },
    }
}

} // verus!
