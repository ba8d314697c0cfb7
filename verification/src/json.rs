//! JSON documents: the library's own document type, what it means, and the way
//! between it and the values of `serde_json`, which reads and prints the text.

use crate::text::same_text;
use vstd::prelude::*;

verus! {

// ---------------------------------------------------------------------------
// What a document says
// ---------------------------------------------------------------------------

/// What a JSON document says. An object is the map from its keys to its members,
/// so the order in which members were written plays no part; a number stands for
/// the text that it prints as.
pub enum Tree {
    Null,
    Bool(bool),
    Number(Seq<char>),
    Text(Seq<char>),
    Array(Seq<Tree>),
    Object(Map<Seq<char>, Tree>),
}

impl Tree {
    /// The member of that key, where this is an object that has one.
    pub open spec fn member(self, key: Seq<char>) -> Option<Tree> {
        match self {
            Tree::Object(members) if members.contains_key(key) => Some(members[key]),
            _ => None,
        }
    }

    /// The characters of a text.
    pub open spec fn text(self) -> Option<Seq<char>> {
        match self {
            Tree::Text(chars) => Some(chars),
            _ => None,
        }
    }

    /// The items of an array.
    pub open spec fn items(self) -> Option<Seq<Tree>> {
        match self {
            Tree::Array(items) => Some(items),
            _ => None,
        }
    }

    /// The member of that key, where it is a text.
    pub open spec fn text_member(self, key: Seq<char>) -> Option<Seq<char>> {
        match self.member(key) {
            Some(member) => member.text(),
            None => None,
        }
    }

    /// The member of that key, where it is an array.
    pub open spec fn array_member(self, key: Seq<char>) -> Option<Seq<Tree>> {
        match self.member(key) {
            Some(member) => member.items(),
            None => None,
        }
    }

    /// The document with that member set; only an object has members to set.
    pub open spec fn with_member(self, key: Seq<char>, value: Tree) -> Tree {
        match self {
            Tree::Object(members) => Tree::Object(members.insert(key, value)),
            _ => self,
        }
    }
}

/// The object without members.
pub open spec fn empty_object() -> Tree {
    Tree::Object(Map::empty())
}

/// The map that a list of members makes: of two members with one key, the later
/// one counts.
pub open spec fn last_wins(entries: Seq<(Seq<char>, Tree)>) -> Map<Seq<char>, Tree>
    decreases entries.len(),
{
    if entries.len() == 0 {
        Map::empty()
    } else {
        last_wins(entries.drop_last()).insert(entries.last().0, entries.last().1)
    }
}

/// Whether arrays and objects stand in one another at most `depth` times.
pub open spec fn nested(tree: Tree, depth: nat) -> bool
    decreases depth,
{
    match tree {
        Tree::Array(items) => {
            &&& depth > 0
            &&& forall|i: int|
                0 <= i < items.len() ==> nested(#[trigger] items[i], (depth - 1) as nat)
        },
        Tree::Object(members) => {
            &&& depth > 0
            &&& forall|key: Seq<char>| #[trigger]
                members.contains_key(key) ==> nested(members[key], (depth - 1) as nat)
        },
        _ => true,
    }
}

/// Whether the text of a number has neither a fraction nor an exponent.
pub open spec fn is_whole(number: Seq<char>) -> bool {
    forall|i: int|
        0 <= i < number.len() ==> (#[trigger] number[i] == '-' || '0' <= number[i] <= '9')
}

/// Whether every number of a document is whole.
pub open spec fn whole_numbers(tree: Tree) -> bool
    decreases tree,
{
    match tree {
        Tree::Number(number) => is_whole(number),
        Tree::Array(items) => forall|i: int|
            0 <= i < items.len() ==> whole_numbers(#[trigger] items[i]),
        Tree::Object(members) => forall|key: Seq<char>| #[trigger]
            members.contains_key(key) ==> whole_numbers(members[key]),
        _ => true,
    }
}

/// Whether two documents say the same, except that a number which is not whole may
/// stand for another.
pub open spec fn alike(a: Tree, b: Tree) -> bool
    decreases a,
{
    match (a, b) {
        (Tree::Number(m), Tree::Number(n)) => is_whole(m) ==> m == n,
        (Tree::Array(s), Tree::Array(t)) => {
            &&& s.len() == t.len()
            &&& forall|i: int| 0 <= i < s.len() ==> alike(#[trigger] s[i], t[i])
        },
        (Tree::Object(m), Tree::Object(n)) => {
            &&& m.dom() == n.dom()
            &&& forall|key: Seq<char>| #[trigger] m.contains_key(key) ==> alike(m[key], n[key])
        },
        _ => a == b,
    }
}

/// How deep the arrays and objects of a text that can be read stand in one
/// another.
pub const MAX_DEPTH: u64 = 127;

/// What the print of a document is good for: it can be read, if nothing stands too
/// deep; and reading it gives the document back, as far as its numbers are whole.
/// The print of an object begins with a brace.
pub open spec fn read_back(tree: Tree, text: Seq<char>) -> bool {
    &&& nested(tree, MAX_DEPTH as nat) ==> parsed(text) is Ok
    &&& parsed(text) matches Ok(read) ==> alike(tree, read)
    &&& tree is Object ==> text.len() > 0 && text[0] == '{'
}

/// The decimal digits of a number, without leading zeros.
pub open spec fn decimal(n: nat) -> Seq<char>
    decreases n,
{
    if n < 10 {
        seq![digit(n)]
    } else {
        decimal(n / 10).push(digit(n % 10))
    }
}

/// The digit for a number below ten.
pub open spec fn digit(n: nat) -> char {
    (n + '0' as nat) as char
}

// ---------------------------------------------------------------------------
// The outside crate's values
// ---------------------------------------------------------------------------

/// `serde_json::Value`, carried as it is.
#[verifier::external_type_specification]
#[verifier::external_body]
pub struct ExValue(serde_json::Value);

/// `serde_json::Number`, carried as it is.
#[verifier::external_type_specification]
#[verifier::external_body]
pub struct ExNumber(serde_json::Number);

/// `serde_json::Map`, carried as it is.
#[verifier::external_type_specification]
#[verifier::external_body]
#[verifier::reject_recursive_types(K)]
#[verifier::reject_recursive_types(V)]
pub struct ExMap<K, V>(serde_json::Map<K, V>);

/// `serde_json::Error`, carried as it is.
#[verifier::external_type_specification]
#[verifier::external_body]
pub struct ExError(serde_json::Error);

/// What a `serde_json::Value` holds.
pub uninterp spec fn value_tree(value: serde_json::Value) -> Tree;

/// What a `serde_json::Map` holds.
pub uninterp spec fn map_members(
    map: serde_json::Map<String, serde_json::Value>,
) -> Map<Seq<char>, Tree>;

/// The text that a `serde_json::Number` displays as.
pub uninterp spec fn number_text(number: serde_json::Number) -> Seq<char>;

/// The text that a `serde_json::Error` displays as.
pub uninterp spec fn error_text(error: serde_json::Error) -> Seq<char>;

/// What `serde_json::from_str` makes of a text: the document, or the text of its
/// error.
pub uninterp spec fn parsed(text: Seq<char>) -> Result<Tree, Seq<char>>;

/// The text that `serde_json::to_string_pretty` makes of a document. Members are
/// printed by the order of their keys.
pub uninterp spec fn printed(tree: Tree) -> Seq<char>;

/// The top of a `serde_json::Value`: which kind it is, and what that kind holds.
enum Layer {
    Null,
    Bool(bool),
    Number(serde_json::Number),
    Text(String),
    Array(Vec<serde_json::Value>),
    Object(serde_json::Map<String, serde_json::Value>),
}

impl Layer {
    /// The document that this is the top of.
    spec fn view(&self) -> Tree {
        match *self {
            Layer::Null => Tree::Null,
            Layer::Bool(b) => Tree::Bool(b),
            Layer::Number(number) => Tree::Number(number_text(number)),
            Layer::Text(text) => Tree::Text(text@),
            Layer::Array(items) => Tree::Array(
                Seq::new(items@.len(), |i: int| value_tree(items@[i])),
            ),
            Layer::Object(map) => Tree::Object(map_members(map)),
        }
    }
}

/// The keys and documents of a list of members.
spec fn entry_trees(entries: Seq<(String, serde_json::Value)>) -> Seq<
    (Seq<char>, Tree),
> {
    Seq::new(entries.len(), |i: int| (entries[i].0@, value_tree(entries[i].1)))
}

/// Takes a `serde_json::Value` apart by its variants: the layer holds what the
/// variant held.
#[verifier::external_body]
fn unfold_value(value: serde_json::Value) -> (layer: Layer)
    ensures
        layer@ == value_tree(value),
{
    match value {
        serde_json::Value::Null => Layer::Null,
        serde_json::Value::Bool(b) => Layer::Bool(b),
        serde_json::Value::Number(number) => Layer::Number(number),
        serde_json::Value::String(text) => Layer::Text(text),
        serde_json::Value::Array(items) => Layer::Array(items),
        serde_json::Value::Object(map) => Layer::Object(map),
    }
}

/// Builds the `serde_json::Value` of a layer, variant by variant.
#[verifier::external_body]
fn fold_value(layer: Layer) -> (value: serde_json::Value)
    ensures
        value_tree(value) == layer@,
{
    match layer {
        Layer::Null => serde_json::Value::Null,
        Layer::Bool(b) => serde_json::Value::Bool(b),
        Layer::Number(number) => serde_json::Value::Number(number),
        Layer::Text(text) => serde_json::Value::String(text),
        Layer::Array(items) => serde_json::Value::Array(items),
        Layer::Object(map) => serde_json::Value::Object(map),
    }
}

/// `serde_json::Map::new`: a map without members.
pub assume_specification[ serde_json::Map::<String, serde_json::Value>::new ]() -> (map:
    serde_json::Map<String, serde_json::Value>)
    ensures
        map_members(map).dom() == Set::<Seq<char>>::empty(),
;

/// `serde_json::Map::insert`: the key now has that value, and the value that it
/// had before, if any, is handed back.
pub assume_specification[ serde_json::Map::<String, serde_json::Value>::insert ](
    map: &mut serde_json::Map<String, serde_json::Value>,
    k: String,
    v: serde_json::Value,
) -> (previous: Option<serde_json::Value>)
    ensures
        map_members(*final(map)) == map_members(*old(map)).insert(k@, value_tree(v)),
        match previous {
            Some(value) => {
                &&& map_members(*old(map)).contains_key(k@)
                &&& map_members(*old(map))[k@] == value_tree(value)
            },
            None => !map_members(*old(map)).contains_key(k@),
        },
;

/// `serde_json::Map::into_iter`, collected: every member once, each key with its
/// value. The order is left unsaid.
#[verifier::external_body]
fn map_entries(map: serde_json::Map<String, serde_json::Value>) -> (entries: Vec<
    (String, serde_json::Value),
>)
    ensures
        last_wins(entry_trees(entries@)) == map_members(map),
        forall|i: int, j: int|
            0 <= i < j < entries@.len() ==> (#[trigger] entries@[i]).0@ != (
            #[trigger] entries@[j]).0@,
{
    map.into_iter().collect()
}

/// `serde_json::Number::clone`: the copy displays as the number does.
pub assume_specification[ <serde_json::Number as Clone>::clone ](
    number: &serde_json::Number,
) -> (copy: serde_json::Number)
    ensures
        number_text(copy) == number_text(*number),
;

/// `serde_json::Number::to_string`: the text that the number displays as.
#[verifier::external_body]
fn display_number(number: &serde_json::Number) -> (text: String)
    ensures
        text@ == number_text(*number),
{
    number.to_string()
}

/// `serde_json::Number::from` on an unsigned integer: a number that displays as
/// the decimal digits of that integer.
#[verifier::external_body]
fn number_from(n: u64) -> (number: serde_json::Number)
    ensures
        number_text(number) == decimal(n as nat),
{
    serde_json::Number::from(n)
}

/// `serde_json::from_str`, reading a `serde_json::Value`. Its recursion limit
/// keeps out what stands too deep.
#[verifier::external_body]
fn read_value(text: &str) -> (res: Result<serde_json::Value, serde_json::Error>)
    ensures
        match res {
            Ok(value) => {
                &&& parsed(text@) == Ok::<Tree, Seq<char>>(value_tree(value))
                &&& nested(value_tree(value), MAX_DEPTH as nat)
            },
            Err(error) => parsed(text@) == Err::<Tree, Seq<char>>(error_text(error)),
        },
{
    serde_json::from_str(text)
}

/// `serde_json::to_string_pretty` on a `serde_json::Value`. It does not fail: every
/// key is a string, and the text is written to memory. The print can be read again,
/// if nothing stands too deep: a number is printed with the fewest digits that tell
/// it from others, and read by one multiplication or division by a power of ten,
/// which stays in range even for the largest number. Whether it comes back exactly
/// is left unsaid of numbers with a fraction or an exponent: that multiplication or
/// division rounds.
#[verifier::external_body]
fn print_value(value: &serde_json::Value) -> (res: Result<String, serde_json::Error>)
    ensures
        res is Ok,
        res matches Ok(text) ==> {
            &&& printed(value_tree(*value)) == text@
            &&& read_back(value_tree(*value), text@)
        },
{
    serde_json::to_string_pretty(value)
}

/// `serde_json::Error::to_string`: the text that the error displays as.
#[verifier::external_body]
fn error_message(error: &serde_json::Error) -> (message: String)
    ensures
        message@ == error_text(*error),
{
    error.to_string()
}

// ---------------------------------------------------------------------------
// The library's documents
// ---------------------------------------------------------------------------

/// A JSON document. An object lists its members; where a key is listed twice, the
/// later member counts.
#[derive(Debug)]
pub enum Json {
    Null,
    Bool(bool),
    Number(serde_json::Number),
    Text(String),
    Array(Vec<Json>),
    Object(Vec<(String, Json)>),
}

/// The keys and documents of a list of members.
pub open spec fn member_trees(members: Seq<(String, Json)>) -> Seq<(Seq<char>, Tree)> {
    Seq::new(members.len(), |i: int| (members[i].0@, members[i].1@))
}

/// The documents of a list of items.
pub open spec fn item_trees(items: Seq<Json>) -> Seq<Tree> {
    Seq::new(items.len(), |i: int| items[i]@)
}

impl Json {
    /// What the document says.
    pub open spec fn view(&self) -> Tree
        decreases self,
    {
        match *self {
            Json::Null => Tree::Null,
            Json::Bool(b) => Tree::Bool(b),
            Json::Number(number) => Tree::Number(number_text(number)),
            Json::Text(text) => Tree::Text(text@),
            Json::Array(items) => Tree::Array(
                Seq::new(
                    items@.len(),
                    |i: int|
                        if 0 <= i < items@.len() {
                            items@[i].view()
                        } else {
                            Tree::Null
                        },
                ),
            ),
            Json::Object(members) => Tree::Object(last_wins(Self::listed(members))),
        }
    }

    /// The keys and documents of an object's members, as listed.
    pub open spec fn listed(members: Vec<(String, Json)>) -> Seq<(Seq<char>, Tree)>
        decreases members,
    {
        Seq::new(
            members@.len(),
            |i: int|
                if 0 <= i < members@.len() {
                    (members@[i].0@, members@[i].1.view())
                } else {
                    (Seq::empty(), Tree::Null)
                },
        )
    }
}

/// An array says what its items say.
pub broadcast proof fn lemma_array_view(items: Vec<Json>)
    ensures
        #[trigger] Json::Array(items)@ == Tree::Array(item_trees(items@)),
{
    assert(Json::Array(items)@->Array_0 =~= item_trees(items@));
}

/// An object says what its members say, the later of two with one key counting.
pub broadcast proof fn lemma_object_view(members: Vec<(String, Json)>)
    ensures
        #[trigger] Json::Object(members)@ == Tree::Object(last_wins(member_trees(members@))),
{
    assert(Json::listed(members) =~= member_trees(members@));
}

// ---------------------------------------------------------------------------
// Lists of members
// ---------------------------------------------------------------------------

/// The last member of a key is the one that counts.
proof fn lemma_last_wins_at(entries: Seq<(Seq<char>, Tree)>, at: int)
    requires
        0 <= at < entries.len(),
        forall|j: int| at < j < entries.len() ==> (#[trigger] entries[j]).0 != entries[at].0,
    ensures
        last_wins(entries).contains_key(entries[at].0),
        last_wins(entries)[entries[at].0] == entries[at].1,
    decreases entries.len(),
{
    if at < entries.len() - 1 {
        let front = entries.drop_last();
        assert(front[at] == entries[at]);
        assert forall|j: int| at < j < front.len() implies (#[trigger] front[j]).0
            != front[at].0 by {
            assert(front[j] == entries[j]);
        }
        lemma_last_wins_at(front, at);
        assert(entries.last() == entries[entries.len() - 1]);
    }
}

/// A key that is not listed has no member.
proof fn lemma_last_wins_missing(entries: Seq<(Seq<char>, Tree)>, key: Seq<char>)
    requires
        forall|j: int| 0 <= j < entries.len() ==> (#[trigger] entries[j]).0 != key,
    ensures
        !last_wins(entries).contains_key(key),
    decreases entries.len(),
{
    if entries.len() > 0 {
        let front = entries.drop_last();
        assert forall|j: int| 0 <= j < front.len() implies (#[trigger] front[j]).0 != key by {
            assert(front[j] == entries[j]);
        }
        lemma_last_wins_missing(front, key);
        assert(entries.last() == entries[entries.len() - 1]);
    }
}

/// Overwriting the last member of a key sets that key.
proof fn lemma_last_wins_update(entries: Seq<(Seq<char>, Tree)>, at: int, value: Tree)
    requires
        0 <= at < entries.len(),
        forall|j: int| at < j < entries.len() ==> (#[trigger] entries[j]).0 != entries[at].0,
    ensures
        last_wins(entries.update(at, (entries[at].0, value))) == last_wins(entries).insert(
            entries[at].0,
            value,
        ),
    decreases entries.len(),
{
    let key = entries[at].0;
    let changed = entries.update(at, (key, value));
    let front = entries.drop_last();
    if at == entries.len() - 1 {
        assert(changed.drop_last() =~= front);
        assert(last_wins(changed) =~= last_wins(entries).insert(key, value));
    } else {
        assert(changed.drop_last() =~= front.update(at, (key, value)));
        assert(front[at] == entries[at]);
        assert forall|j: int| at < j < front.len() implies (#[trigger] front[j]).0
            != front[at].0 by {
            assert(front[j] == entries[j]);
        }
        lemma_last_wins_update(front, at, value);
        assert(entries.last() == entries[entries.len() - 1]);
        assert(last_wins(changed) =~= last_wins(entries).insert(key, value));
    }
}

/// A list of members makes a finite map.
proof fn lemma_last_wins_finite(entries: Seq<(Seq<char>, Tree)>)
    ensures
        last_wins(entries).dom().finite(),
    decreases entries.len(),
{
    if entries.len() > 0 {
        lemma_last_wins_finite(entries.drop_last());
    }
}

// ---------------------------------------------------------------------------
// Reading and changing a document
// ---------------------------------------------------------------------------

impl Clone for Json {
    fn clone(&self) -> (copy: Self)
        ensures
            copy@ == self@,
        decreases self,
    {
        broadcast use {lemma_array_view, lemma_object_view};

        match self {
            Json::Null => Json::Null,
            Json::Bool(b) => Json::Bool(*b),
            Json::Number(number) => Json::Number(number.clone()),
            Json::Text(text) => Json::Text(text.clone()),
            Json::Array(items) => {
                let mut copies: Vec<Json> = Vec::new();
                let mut i: usize = 0;
                while i < items.len()
                    invariant
                        i <= items@.len(),
                        copies@.len() == i,
                        decreases_to!(self => items),
                        forall|j: int| 0 <= j < i ==> (#[trigger] copies@[j])@ == items@[j]@,
                    decreases items@.len() - i,
                {
                    copies.push(items[i].clone());
                    i += 1;
                }
                assert(item_trees(copies@) =~= item_trees(items@));
                Json::Array(copies)
            },
            Json::Object(members) => {
                let mut copies: Vec<(String, Json)> = Vec::new();
                let mut i: usize = 0;
                while i < members.len()
                    invariant
                        i <= members@.len(),
                        copies@.len() == i,
                        decreases_to!(self => members),
                        forall|j: int|
                            0 <= j < i ==> (#[trigger] copies@[j]).0@ == members@[j].0@
                                && copies@[j].1@ == members@[j].1@,
                    decreases members@.len() - i,
                {
                    let value = members[i].1.clone();
                    copies.push((members[i].0.clone(), value));
                    i += 1;
                }
                assert(member_trees(copies@) =~= member_trees(members@));
                Json::Object(copies)
            },
        }
    }
}

impl Json {
    /// The position of the member that counts for a key.
    fn position(members: &Vec<(String, Json)>, key: &str) -> (found: Option<usize>)
        ensures
            match found {
                Some(at) => {
                    &&& at < members@.len()
                    &&& members@[at as int].0@ == key@
                    &&& forall|j: int|
                        at < j < members@.len() ==> (#[trigger] members@[j]).0@ != key@
                },
                None => forall|j: int|
                    0 <= j < members@.len() ==> (#[trigger] members@[j]).0@ != key@,
            },
    {
        let mut i: usize = members.len();
        while i > 0
            invariant
                i <= members@.len(),
                forall|j: int| i <= j < members@.len() ==> (#[trigger] members@[j]).0@ != key@,
            decreases i,
        {
            i -= 1;
            if same_text(members[i].0.as_str(), key) {
                return Some(i);
            }
        }
        None
    }

    /// The member of that key, where this is an object that has one.
    pub fn get(&self, key: &str) -> (member: Option<&Json>)
        ensures
            match member {
                Some(value) => self@.member(key@) == Some(value@),
                None => self@.member(key@) is None,
            },
    {
        broadcast use lemma_object_view;

        match self {
            Json::Object(members) => {
                let ghost entries = member_trees(members@);
                match Self::position(members, key) {
                    Some(at) => {
                        proof {
                            assert forall|j: int| at < j < entries.len() implies (
                            #[trigger] entries[j]).0 != entries[at as int].0 by {
                                assert(members@[j].0@ != key@);
                            }
                            lemma_last_wins_at(entries, at as int);
                        }
                        Some(&members[at].1)
                    },
                    None => {
                        proof {
                            assert forall|j: int| 0 <= j < entries.len() implies (
                            #[trigger] entries[j]).0 != key@ by {
                                assert(members@[j].0@ != key@);
                            }
                            lemma_last_wins_missing(entries, key@);
                        }
                        None
                    },
                }
            },
            _ => None,
        }
    }

    /// The characters of a text.
    pub fn as_str(&self) -> (text: Option<&str>)
        ensures
            match text {
                Some(chars) => self@.text() == Some(chars@),
                None => self@.text() is None,
            },
    {
        match self {
            Json::Text(text) => Some(text.as_str()),
            _ => None,
        }
    }

    /// The items of an array.
    pub fn as_array(&self) -> (items: Option<&Vec<Json>>)
        ensures
            match items {
                Some(list) => self@.items() == Some(item_trees(list@)),
                None => self@.items() is None,
            },
    {
        broadcast use lemma_array_view;

        match self {
            Json::Array(items) => Some(items),
            _ => None,
        }
    }

    /// The member of that key, where it is a text.
    pub fn get_str(&self, key: &str) -> (text: Option<&str>)
        ensures
            match text {
                Some(chars) => self@.text_member(key@) == Some(chars@),
                None => self@.text_member(key@) is None,
            },
    {
        match self.get(key) {
            Some(member) => member.as_str(),
            None => None,
        }
    }

    /// The member of that key, where it is an array.
    pub fn get_array(&self, key: &str) -> (items: Option<&Vec<Json>>)
        ensures
            match items {
                Some(list) => self@.array_member(key@) == Some(item_trees(list@)),
                None => self@.array_member(key@) is None,
            },
    {
        match self.get(key) {
            Some(member) => member.as_array(),
            None => None,
        }
    }

    /// Sets the member of that key; only an object has members to set.
    pub fn set(&mut self, key: &str, value: Json)
        ensures
            final(self)@ == old(self)@.with_member(key@, value@),
    {
        broadcast use lemma_object_view;

        match self {
            Json::Object(members) => {
                let ghost entries = member_trees(members@);
                match Self::position(members, key) {
                    Some(at) => {
                        proof {
                            assert forall|j: int| at < j < entries.len() implies (
                            #[trigger] entries[j]).0 != entries[at as int].0 by {
                                assert(members@[j].0@ != key@);
                            }
                            lemma_last_wins_update(entries, at as int, value@);
                        }
                        members.set(at, (key.to_owned(), value));
                        assert(member_trees(members@) =~= entries.update(
                            at as int,
                            (key@, value@),
                        ));
                    },
                    None => {
                        members.push((key.to_owned(), value));
                        assert(member_trees(members@) =~= entries.push((key@, value@)));
                        assert(entries.push((key@, value@)).drop_last() =~= entries);
                    },
                }
            },
            _ => {},
        }
    }

    /// The number of an unsigned integer.
    pub fn integer(n: u64) -> (number: Json)
        ensures
            number@ == Tree::Number(decimal(n as nat)),
    {
        Json::Number(number_from(n))
    }
}

// ---------------------------------------------------------------------------
// Comparing documents
// ---------------------------------------------------------------------------

/// Every key of the map stands in the list.
proof fn lemma_last_wins_listed(entries: Seq<(Seq<char>, Tree)>, key: Seq<char>) -> (at: int)
    requires
        last_wins(entries).contains_key(key),
    ensures
        0 <= at < entries.len(),
        entries[at].0 == key,
    decreases entries.len(),
{
    if entries.last().0 == key {
        entries.len() - 1
    } else {
        lemma_last_wins_listed(entries.drop_last(), key)
    }
}

impl Json {
    /// Whether two documents say the same.
    pub fn same(&self, other: &Json) -> (same: bool)
        ensures
            same == (self@ == other@),
        decreases self,
    {
        broadcast use {lemma_array_view, lemma_object_view};

        match (self, other) {
            (Json::Null, Json::Null) => true,
            (Json::Bool(a), Json::Bool(b)) => *a == *b,
            (Json::Number(a), Json::Number(b)) => display_number(a) == display_number(b),
            (Json::Text(a), Json::Text(b)) => *a == *b,
            (Json::Array(a), Json::Array(b)) => {
                if a.len() != b.len() {
                    assert(item_trees(a@).len() != item_trees(b@).len());
                    return false;
                }
                let mut i: usize = 0;
                while i < a.len()
                    invariant
                        i <= a@.len(),
                        a@.len() == b@.len(),
                        decreases_to!(self => a),
                        self@ == Tree::Array(item_trees(a@)),
                        other@ == Tree::Array(item_trees(b@)),
                        forall|j: int| 0 <= j < i ==> (#[trigger] a@[j])@ == b@[j]@,
                    decreases a@.len() - i,
                {
                    if !a[i].same(&b[i]) {
                        assert(item_trees(a@)[i as int] != item_trees(b@)[i as int]);
                        return false;
                    }
                    i += 1;
                }
                assert(item_trees(a@) =~= item_trees(b@));
                true
            },
            (Json::Object(a), Json::Object(b)) => Self::same_members(a, b),
            _ => false,
        }
    }

    /// Whether two lists of members make the same map.
    fn same_members(a: &Vec<(String, Json)>, b: &Vec<(String, Json)>) -> (same: bool)
        ensures
            same == (last_wins(member_trees(a@)) == last_wins(member_trees(b@))),
        decreases a,
    {
        let ghost left = member_trees(a@);
        let ghost right = member_trees(b@);
        let mut i: usize = 0;
        while i < a.len()
            invariant
                i <= a@.len(),
                left == member_trees(a@),
                right == member_trees(b@),
                forall|j: int|
                    0 <= j < i ==> {
                        &&& last_wins(right).contains_key((#[trigger] left[j]).0)
                        &&& last_wins(right)[left[j].0] == last_wins(left)[left[j].0]
                    },
            decreases a@.len() - i,
        {
            let key = a[i].0.as_str();
            match (Self::position(a, key), Self::position(b, key)) {
                (Some(p), Some(q)) => {
                    proof {
                        lemma_position(a@, p as int);
                        lemma_position(b@, q as int);
                    }
                    if !a[p].1.same(&b[q].1) {
                        return false;
                    }
                },
                (_, _) => {
                    proof {
                        assert(a@[i as int].0@ == key@);
                        assert forall|j: int| 0 <= j < right.len() implies (
                        #[trigger] right[j]).0 != key@ by {
                            assert(b@[j].0@ != key@);
                        }
                        lemma_last_wins_missing(right, key@);
                        lemma_key_listed(left, i as int);
                    }
                    return false;
                },
            }
            i += 1;
        }
        let mut i: usize = 0;
        while i < b.len()
            invariant
                i <= b@.len(),
                left == member_trees(a@),
                right == member_trees(b@),
                forall|j: int| 0 <= j < i ==> last_wins(left).contains_key((#[trigger] right[j]).0),
            decreases b@.len() - i,
        {
            match Self::position(a, b[i].0.as_str()) {
                Some(p) => {
                    proof {
                        lemma_position(a@, p as int);
                    }
                },
                None => {
                    proof {
                        let key = b@[i as int].0@;
                        assert forall|j: int| 0 <= j < left.len() implies (
                        #[trigger] left[j]).0 != key by {
                            assert(a@[j].0@ != key);
                        }
                        lemma_last_wins_missing(left, key);
                        lemma_key_listed(right, i as int);
                    }
                    return false;
                },
            }
            i += 1;
        }
        proof {
            assert forall|key: Seq<char>| #[trigger]
                last_wins(left).contains_key(key) implies last_wins(right).contains_key(key)
                && last_wins(right)[key] == last_wins(left)[key] by {
                let at = lemma_last_wins_listed(left, key);
                assert(left[at].0 == key);
            }
            assert forall|key: Seq<char>| #[trigger]
                last_wins(right).contains_key(key) implies last_wins(left).contains_key(key) by {
                let at = lemma_last_wins_listed(right, key);
                assert(right[at].0 == key);
            }
            assert(last_wins(left) =~= last_wins(right));
        }
        true
    }
}

/// The member that counts for a key is the one that the map holds.
proof fn lemma_position(members: Seq<(String, Json)>, at: int)
    requires
        0 <= at < members.len(),
        forall|j: int|
            at < j < members.len() ==> (#[trigger] members[j]).0@ != members[at].0@,
    ensures
        last_wins(member_trees(members)).contains_key(members[at].0@),
        last_wins(member_trees(members))[members[at].0@] == members[at].1@,
{
    let entries = member_trees(members);
    assert forall|j: int| at < j < entries.len() implies (#[trigger] entries[j]).0
        != entries[at].0 by {
        assert(members[j].0@ != members[at].0@);
    }
    lemma_last_wins_at(entries, at);
}

/// A listed key has a member.
proof fn lemma_key_listed(entries: Seq<(Seq<char>, Tree)>, at: int)
    requires
        0 <= at < entries.len(),
    ensures
        last_wins(entries).contains_key(entries[at].0),
    decreases entries.len(),
{
    if at < entries.len() - 1 {
        assert(entries.drop_last()[at] == entries[at]);
        lemma_key_listed(entries.drop_last(), at);
    }
}

// ---------------------------------------------------------------------------
// Text
// ---------------------------------------------------------------------------

impl Json {
    /// The document that a `serde_json::Value` holds.
    fn from_value(value: serde_json::Value) -> (json: Json)
        ensures
            json@ == value_tree(value),
        decreases value_tree(value),
    {
        broadcast use {lemma_array_view, lemma_object_view};

        let ghost tree = value_tree(value);
        match unfold_value(value) {
            Layer::Null => Json::Null,
            Layer::Bool(b) => Json::Bool(b),
            Layer::Number(number) => Json::Number(number),
            Layer::Text(text) => Json::Text(text),
            Layer::Array(values) => {
                let ghost all = values@;
                let ghost trees = tree->Array_0;
                let mut items: Vec<Json> = Vec::new();
                for inner in it: values
                    invariant
                        it.seq() == all,
                        tree == value_tree(value),
                        tree == Tree::Array(trees),
                        trees == Seq::new(all.len(), |i: int| value_tree(all[i])),
                        items@.len() == it.index(),
                        forall|j: int| 0 <= j < items@.len() ==> (#[trigger] items@[j])@ == trees[j],
                {
                    assert(trees[it.index() as int] == value_tree(inner));
                    assert(decreases_to!(tree => tree->Array_0));
                    assert(decreases_to!(trees => trees[it.index() as int]));
                    assert(decreases_to!(tree => value_tree(inner)));
                    items.push(Self::from_value(inner));
                }
                assert(item_trees(items@) =~= trees);
                Json::Array(items)
            },
            Layer::Object(map) => {
                let ghost held = map_members(map);
                let entries = map_entries(map);
                let ghost all = entries@;
                let ghost listed = entry_trees(all);
                let mut members: Vec<(String, Json)> = Vec::new();
                for entry in it: entries
                    invariant
                        it.seq() == all,
                        tree == value_tree(value),
                        tree == Tree::Object(held),
                        listed == entry_trees(all),
                        held == last_wins(listed),
                        forall|i: int, j: int|
                            0 <= i < j < all.len() ==> (#[trigger] all[i]).0@ != (
                            #[trigger] all[j]).0@,
                        members@.len() == it.index(),
                        forall|j: int|
                            0 <= j < members@.len() ==> (#[trigger] members@[j]).0@ == listed[j].0
                                && members@[j].1@ == listed[j].1,
                {
                    let ghost at = it.index() as int;
                    let (key, inner) = entry;
                    proof {
                        assert forall|j: int| at < j < listed.len() implies (
                        #[trigger] listed[j]).0 != listed[at].0 by {
                            assert(all[at].0@ != all[j].0@);
                        }
                        lemma_last_wins_at(listed, at);
                        lemma_last_wins_finite(listed);
                        assert(decreases_to!(tree => tree->Object_0));
                        assert(decreases_to!(held => held[key@]));
                        assert(decreases_to!(tree => value_tree(inner)));
                    }
                    members.push((key, Self::from_value(inner)));
                }
                assert(member_trees(members@) =~= listed);
                Json::Object(members)
            },
        }
    }

    /// The `serde_json::Value` of this document.
    fn to_value(&self) -> (value: serde_json::Value)
        ensures
            value_tree(value) == self@,
        decreases self,
    {
        broadcast use {lemma_array_view, lemma_object_view};

        match self {
            Json::Null => fold_value(Layer::Null),
            Json::Bool(b) => fold_value(Layer::Bool(*b)),
            Json::Number(number) => fold_value(Layer::Number(number.clone())),
            Json::Text(text) => fold_value(Layer::Text(text.clone())),
            Json::Array(items) => {
                let mut values: Vec<serde_json::Value> = Vec::new();
                let mut i: usize = 0;
                while i < items.len()
                    invariant
                        i <= items@.len(),
                        values@.len() == i,
                        decreases_to!(self => items),
                        forall|j: int| 0 <= j < i ==> value_tree(#[trigger] values@[j]) == items@[j]@,
                    decreases items@.len() - i,
                {
                    values.push(items[i].to_value());
                    i += 1;
                }
                let layer = Layer::Array(values);
                assert(layer@->Array_0 =~= item_trees(items@));
                fold_value(layer)
            },
            Json::Object(members) => {
                let mut map = serde_json::Map::new();
                let ghost entries = member_trees(members@);
                let mut i: usize = 0;
                assert(map_members(map) =~= last_wins(entries.take(0)));
                while i < members.len()
                    invariant
                        i <= members@.len(),
                        entries == member_trees(members@),
                        decreases_to!(self => members),
                        map_members(map) == last_wins(entries.take(i as int)),
                    decreases members@.len() - i,
                {
                    let value = members[i].1.to_value();
                    map.insert(members[i].0.clone(), value);
                    assert(entries.take(i + 1).drop_last() =~= entries.take(i as int));
                    i += 1;
                }
                assert(entries.take(i as int) =~= entries);
                fold_value(Layer::Object(map))
            },
        }
    }

    /// Reads a document from its text.
    pub fn parse(text: &str) -> (res: Result<Json, String>)
        ensures
            match res {
                Ok(json) => {
                    &&& parsed(text@) == Ok::<Tree, Seq<char>>(json@)
                    &&& nested(json@, MAX_DEPTH as nat)
                },
                Err(message) => parsed(text@) == Err::<Tree, Seq<char>>(message@),
            },
    {
        match read_value(text) {
            Ok(value) => Ok(Self::from_value(value)),
            Err(error) => Err(error_message(&error)),
        }
    }

    /// Prints the document over several lines, indented.
    pub fn print(&self) -> (res: Result<String, String>)
        ensures
            res is Ok,
            res matches Ok(text) ==> {
                &&& printed(self@) == text@
                &&& read_back(self@, text@)
            },
    {
        let value = self.to_value();
        match print_value(&value) {
            Ok(text) => Ok(text),
            Err(error) => Err(error_message(&error)),
        }
    }
}

// ---------------------------------------------------------------------------
// Laws
// ---------------------------------------------------------------------------

/// An object has the members that its map has; nothing else has any.
pub proof fn law_members(members: Map<Seq<char>, Tree>, other: Tree, key: Seq<char>)
    requires
        other !is Object,
    ensures
        Tree::Object(members).member(key) == if members.contains_key(key) {
            Some(members[key])
        } else {
            None
        },
        other.member(key) is None,
{
}

/// What was set is there, and the other members are as they were; what is no object
/// stays as it is.
pub proof fn law_set_then_get(tree: Tree, key: Seq<char>, value: Tree, other: Seq<char>)
    ensures
        tree is Object ==> tree.with_member(key, value).member(key) == Some(value),
        tree is Object <==> tree.with_member(key, value) is Object,
        other != key ==> tree.with_member(key, value).member(other) == tree.member(other),
        tree !is Object ==> tree.with_member(key, value) == tree,
{
}

/// A text is a text and an array is an array, as members too.
pub proof fn law_kinds_of_members(tree: Tree, key: Seq<char>)
    ensures
        tree.text() == match tree {
            Tree::Text(chars) => Some(chars),
            _ => None,
        },
        tree.items() == match tree {
            Tree::Array(items) => Some(items),
            _ => None,
        },
        tree.text_member(key) == match tree.member(key) {
            Some(Tree::Text(chars)) => Some(chars),
            _ => None,
        },
        tree.array_member(key) == match tree.member(key) {
            Some(Tree::Array(items)) => Some(items),
            _ => None,
        },
{
}

/// A list of members has a member for every key that it lists and for no other, and
/// that is the last one listed.
pub proof fn law_last_member_counts(entries: Seq<(Seq<char>, Tree)>, key: Seq<char>)
    ensures
        last_wins(entries).contains_key(key) <==> exists|i: int|
            0 <= i < entries.len() && (#[trigger] entries[i]).0 == key,
        forall|at: int|
            0 <= at < entries.len() && (#[trigger] entries[at]).0 == key && (forall|j: int|
                at < j < entries.len() ==> (#[trigger] entries[j]).0 != key) ==> last_wins(
                entries,
            )[key] == entries[at].1,
{
    if last_wins(entries).contains_key(key) {
        let at = lemma_last_wins_listed(entries, key);
        assert(entries[at].0 == key);
    }
    if exists|i: int| 0 <= i < entries.len() && (#[trigger] entries[i]).0 == key {
        let at = choose|i: int| 0 <= i < entries.len() && (#[trigger] entries[i]).0 == key;
        lemma_key_listed(entries, at);
    }
    assert forall|at: int|
        0 <= at < entries.len() && (#[trigger] entries[at]).0 == key && (forall|j: int|
            at < j < entries.len() ==> (#[trigger] entries[j]).0 != key) implies last_wins(
        entries,
    )[key] == entries[at].1 by {
        lemma_last_wins_at(entries, at);
    }
}

/// A document says what it holds: a value as it is, an array its items in their
/// order, an object its members.
pub proof fn law_documents_say_what_they_hold(
    b: bool,
    number: serde_json::Number,
    text: String,
    items: Vec<Json>,
    members: Vec<(String, Json)>,
)
    ensures
        Json::Null@ == Tree::Null,
        Json::Bool(b)@ == Tree::Bool(b),
        Json::Number(number)@ == Tree::Number(number_text(number)),
        Json::Text(text)@ == Tree::Text(text@),
        Json::Array(items)@ matches Tree::Array(said) && said.len() == items@.len() && forall|i: int|
            0 <= i < items@.len() ==> #[trigger] said[i] == items@[i]@,
        Json::Object(members)@ matches Tree::Object(said) && forall|key: Seq<char>| #[trigger]
            said.contains_key(key) <==> exists|i: int|
                0 <= i < members@.len() && (#[trigger] members@[i]).0@ == key,
        Json::Object(members)@ matches Tree::Object(said) && forall|at: int|
            0 <= at < members@.len() && (forall|j: int|
                at < j < members@.len() ==> (#[trigger] members@[j]).0@ != members@[at].0@)
                ==> said[(#[trigger] members@[at]).0@] == members@[at].1@,
{
    lemma_array_view(items);
    lemma_object_view(members);
    let entries = member_trees(members@);
    let said = last_wins(entries);
    assert forall|key: Seq<char>| #[trigger] said.contains_key(key) <==> exists|i: int|
        0 <= i < members@.len() && (#[trigger] members@[i]).0@ == key by {
        law_last_member_counts(entries, key);
        if said.contains_key(key) {
            let at = lemma_last_wins_listed(entries, key);
            assert(members@[at].0@ == key);
        }
        if exists|i: int| 0 <= i < members@.len() && (#[trigger] members@[i]).0@ == key {
            let at = choose|i: int| 0 <= i < members@.len() && (#[trigger] members@[i]).0@ == key;
            assert(entries[at].0 == key);
        }
    }
    assert forall|at: int|
        0 <= at < members@.len() && (forall|j: int|
            at < j < members@.len() ==> (#[trigger] members@[j]).0@ != members@[at].0@) implies said[(
    #[trigger] members@[at]).0@] == members@[at].1@ by {
        lemma_position(members@, at);
    }
}

} // verus!
