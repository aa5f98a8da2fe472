//! Saved games as trees of TOML values: what such a tree holds, and how the
//! library reads and builds one.

use vstd::prelude::*;

verus! {

/// A value of a saved game, as the TOML library keeps it.
#[verifier::external_type_specification]
#[verifier::external_body]
pub struct ExValue(toml::Value);

/// A table of a saved game, as the TOML library keeps it.
#[verifier::external_type_specification]
#[verifier::external_body]
#[verifier::reject_recursive_types(K)]
#[verifier::reject_recursive_types(V)]
pub struct ExTable<K, V>(toml::map::Map<K, V>);

/// What a value of a saved game holds.
pub enum Saved {
    /// A string.
    Text(Seq<char>),
    /// An integer of 64 bits.
    Integer(int),
    /// A truth value.
    Boolean(bool),
    /// A list of values.
    Array(Seq<Saved>),
    /// Values by key.
    Table(Map<Seq<char>, Saved>),
    /// A float or a date, which no saved game of this library holds.
    Other,
}

/// What the TOML value `v` holds: a string by its characters, an integer
/// or a truth value as it is, a list by what its values hold in their order,
/// and a table by what it holds under each key. Floats and dates all count
/// as `Other`.
pub uninterp spec fn value_model(v: toml::Value) -> Saved;

/// What the TOML table `t` holds under each of its keys, a key being taken
/// by its characters.
pub uninterp spec fn table_model(t: toml::value::Table) -> Map<Seq<char>, Saved>;

/// What the values of a list hold, one by one.
pub open spec fn values_model(values: Seq<toml::Value>) -> Seq<Saved> {
    Seq::new(values.len(), |i: int| value_model(values[i]))
}

/// The table without entries.
pub open spec fn no_entries() -> Map<Seq<char>, Saved> {
    Map::empty()
}

/// What a list holds once one more value is put behind the others.
pub proof fn lemma_values_push(values: Seq<toml::Value>, v: toml::Value)
    ensures
        values_model(values.push(v)) == values_model(values).push(value_model(v)),
{
    assert(values_model(values.push(v)) =~= values_model(values).push(value_model(v)));
}

/// Calls `toml::value::Table::new`: the table it returns holds nothing.
#[verifier::external_body]
pub(crate) fn new_table() -> (t: toml::value::Table)
    ensures
        table_model(t) == no_entries(),
{
    toml::value::Table::new()
}

/// Calls `toml::value::Table::insert` with `key` as an owned string: the
/// table then holds `value` under `key`, in place of what it held there, and
/// everything else as before.
#[verifier::external_body]
pub(crate) fn table_insert(t: &mut toml::value::Table, key: &str, value: toml::Value)
    ensures
        table_model(*final(t)) == table_model(*old(t)).insert(key@, value_model(value)),
{
    t.insert(key.to_string(), value);
}

/// Calls `toml::value::Table::get`: it returns the value that the table
/// holds under `key`, if any.
#[verifier::external_body]
pub(crate) fn table_get<'a>(t: &'a toml::value::Table, key: &str) -> (r: Option<&'a toml::Value>)
    ensures
        match r {
            Some(v) => table_model(*t).contains_key(key@) && value_model(*v) == table_model(*t)[key@],
            None => !table_model(*t).contains_key(key@),
        },
{
    t.get(key)
}

/// Calls `toml::Value::as_integer`: it returns the integer that the value
/// holds, and `None` for a value of any other kind.
#[verifier::external_body]
pub(crate) fn value_as_integer(v: &toml::Value) -> (r: Option<i64>)
    ensures
        match r {
            Some(i) => value_model(*v) == Saved::Integer(i as int),
            None => !(value_model(*v) is Integer),
        },
{
    v.as_integer()
}

/// Calls `toml::Value::as_str`: it returns the string that the value
/// holds, and `None` for a value of any other kind.
#[verifier::external_body]
pub(crate) fn value_as_str(v: &toml::Value) -> (r: Option<&str>)
    ensures
        match r {
            Some(s) => value_model(*v) == Saved::Text(s@),
            None => !(value_model(*v) is Text),
        },
{
    v.as_str()
}

/// Calls `toml::Value::as_array`: it returns the list that the value
/// holds, and `None` for a value of any other kind.
#[verifier::external_body]
pub(crate) fn value_as_array(v: &toml::Value) -> (r: Option<&Vec<toml::Value>>)
    ensures
        match r {
            Some(a) => value_model(*v) == Saved::Array(values_model(a@)),
            None => !(value_model(*v) is Array),
        },
{
    v.as_array()
}

/// Calls `toml::Value::as_table`: it returns the table that the value
/// holds, and `None` for a value of any other kind.
#[verifier::external_body]
pub(crate) fn value_as_table(v: &toml::Value) -> (r: Option<&toml::value::Table>)
    ensures
        match r {
            Some(t) => value_model(*v) == Saved::Table(table_model(*t)),
            None => !(value_model(*v) is Table),
        },
{
    v.as_table()
}

/// Calls `toml::value::Table::remove`: it returns the value that the table
/// held under `key`, if any, and the table no longer holds it.
#[verifier::external_body]
pub(crate) fn table_remove(t: &mut toml::value::Table, key: &str) -> (r: Option<toml::Value>)
    ensures
        table_model(*final(t)) == table_model(*old(t)).remove(key@),
        match r {
            Some(v) => table_model(*old(t)).contains_key(key@) && value_model(v) == table_model(
                *old(t),
            )[key@],
            None => !table_model(*old(t)).contains_key(key@),
        },
{
    t.remove(key)
}

/// Tells the variant `toml::Value::Array` from the others: it returns the
/// list that the value holds, and `None` for a value of any other kind.
#[verifier::external_body]
pub(crate) fn value_into_array(v: toml::Value) -> (r: Option<Vec<toml::Value>>)
    ensures
        match r {
            Some(a) => value_model(v) == Saved::Array(values_model(a@)),
            None => !(value_model(v) is Array),
        },
{
    match v {
        toml::Value::Array(a) => Some(a),
        _ => None,
    }
}

/// Tells the variant `toml::Value::Table` from the others: it returns the
/// table that the value holds, and `None` for a value of any other kind.
#[verifier::external_body]
pub(crate) fn value_into_table(v: toml::Value) -> (r: Option<toml::value::Table>)
    ensures
        match r {
            Some(t) => value_model(v) == Saved::Table(table_model(t)),
            None => !(value_model(v) is Table),
        },
{
    match v {
        toml::Value::Table(t) => Some(t),
        _ => None,
    }
}

/// Makes a `toml::Value::Integer`: a value that holds `i`.
#[verifier::external_body]
pub(crate) fn integer_value(i: i64) -> (v: toml::Value)
    ensures
        value_model(v) == Saved::Integer(i as int),
{
    toml::Value::Integer(i)
}

/// Makes a `toml::Value::String`: a value that holds the characters of `s`.
#[verifier::external_body]
pub(crate) fn string_value(s: &str) -> (v: toml::Value)
    ensures
        value_model(v) == Saved::Text(s@),
{
    toml::Value::String(s.to_string())
}

/// Makes a `toml::Value::Array`: a value that holds the values of `a` in
/// their order.
#[verifier::external_body]
pub(crate) fn array_value(a: Vec<toml::Value>) -> (v: toml::Value)
    ensures
        value_model(v) == Saved::Array(values_model(a@)),
{
    toml::Value::Array(a)
}

/// Makes a `toml::Value::Table`: a value that holds what `t` holds.
#[verifier::external_body]
pub(crate) fn table_value(t: toml::value::Table) -> (v: toml::Value)
    ensures
        value_model(v) == Saved::Table(table_model(t)),
{
    toml::Value::Table(t)
}

/// The list that a value holds, empty for a value that is no list.
pub open spec fn spec_to_array(m: Saved) -> Seq<Saved> {
    match m {
        Saved::Array(a) => a,
        _ => Seq::empty(),
    }
}

/// The table that a value holds, empty for a value that is no table.
pub open spec fn spec_to_table(m: Saved) -> Map<Seq<char>, Saved> {
    match m {
        Saved::Table(t) => t,
        _ => Map::empty(),
    }
}

/// The integer that a value holds, brought into the range of `i32`; 0 for a
/// value that is no integer.
pub open spec fn spec_to_i32(m: Saved) -> int {
    match m {
        Saved::Integer(i) => if i > i32::MAX {
            i32::MAX as int
        } else if i < i32::MIN {
            i32::MIN as int
        } else {
            i
        },
        _ => 0,
    }
}

/// What a table holds under `key`, or a value of no use where it holds
/// nothing there.
pub open spec fn entry(t: Map<Seq<char>, Saved>, key: Seq<char>) -> Saved {
    if t.contains_key(key) {
        t[key]
    } else {
        Saved::Other
    }
}

/// The integer that a table holds under `key`, brought into the range of
/// `i32`; 0 where it holds none there.
pub open spec fn spec_i32_at(t: Map<Seq<char>, Saved>, key: Seq<char>) -> int {
    spec_to_i32(entry(t, key))
}

/// Returns the integer that `value` holds, brought into the range of
/// `i32`, or 0 if it holds none.
pub fn to_i32(value: &toml::Value) -> (r: i32)
    ensures
        r == spec_to_i32(value_model(*value)),
{
    match value_as_integer(value) {
        Some(i) => {
            if i > i32::MAX as i64 {
                i32::MAX
            } else if i < i32::MIN as i64 {
                i32::MIN
            } else {
                i as i32
            }
        },
        None => 0,
    }
}

/// Returns the integer that the table holds under `key`, brought into the
/// range of `i32`; 0 where it holds none there.
pub fn i32_at(table: &toml::value::Table, key: &str) -> (r: i32)
    ensures
        r == spec_i32_at(table_model(*table), key@),
{
    match table_get(table, key) {
        Some(value) => to_i32(value),
        None => 0,
    }
}

/// Returns the list that the table holds under `key`, if it holds one there.
pub fn array_at<'a>(table: &'a toml::value::Table, key: &str) -> (r: Option<&'a Vec<toml::Value>>)
    ensures
        match r {
            Some(a) => entry(table_model(*table), key@) == Saved::Array(values_model(a@)),
            None => spec_to_array(entry(table_model(*table), key@)) == Seq::<Saved>::empty(),
        },
{
    match table_get(table, key) {
        Some(value) => value_as_array(value),
        None => None,
    }
}

/// Returns the table that the table holds under `key`, if it holds one
/// there.
pub fn table_at<'a>(table: &'a toml::value::Table, key: &str) -> (r: Option<&'a toml::value::Table>)
    ensures
        match r {
            Some(t) => entry(table_model(*table), key@) == Saved::Table(table_model(*t)),
            None => spec_to_table(entry(table_model(*table), key@)) == no_entries(),
        },
{
    match table_get(table, key) {
        Some(value) => value_as_table(value),
        None => None,
    }
}

/// Returns the list that `value` holds, or an empty list if it is none.
pub fn to_array(value: toml::Value) -> (r: Vec<toml::Value>)
    ensures
        values_model(r@) == spec_to_array(value_model(value)),
{
    match value_into_array(value) {
        Some(a) => a,
        None => {
            let a: Vec<toml::Value> = Vec::new();
            proof {
                assert(values_model(a@) =~= Seq::<Saved>::empty());
            }
            a
        },
    }
}

/// Returns the table that `value` holds, or an empty table if it is none.
pub fn to_table(value: toml::Value) -> (r: toml::value::Table)
    ensures
        table_model(r) == spec_to_table(value_model(value)),
{
    match value_into_table(value) {
        Some(t) => t,
        None => new_table(),
    }
}

/// Takes the list under `key` out of the table; an empty list where the
/// table holds none there.
pub fn pop_array(table: &mut toml::value::Table, key: &str) -> (r: Vec<toml::Value>)
    ensures
        table_model(*final(table)) == table_model(*old(table)).remove(key@),
        values_model(r@) == spec_to_array(entry(table_model(*old(table)), key@)),
{
    match table_remove(table, key) {
        Some(value) => to_array(value),
        None => {
            let a: Vec<toml::Value> = Vec::new();
            proof {
                assert(values_model(a@) =~= Seq::<Saved>::empty());
            }
            a
        },
    }
}

/// Takes the table under `key` out of the table; an empty table where the
/// table holds none there.
pub fn pop_table(table: &mut toml::value::Table, key: &str) -> (r: toml::value::Table)
    ensures
        table_model(*final(table)) == table_model(*old(table)).remove(key@),
        table_model(r) == spec_to_table(entry(table_model(*old(table)), key@)),
{
    match table_remove(table, key) {
        Some(value) => to_table(value),
        None => new_table(),
    }
}

/// Returns true if the two strings hold the same characters.
pub fn same_text(a: &str, b: &str) -> (r: bool)
    ensures
        r == (a@ == b@),
{
    let x = a.to_owned();
    let y = b.to_owned();
    x == y
}

} // verus!
