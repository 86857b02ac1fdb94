use crate::dict::Dict;
use vstd::prelude::*;

verus! {

/// One record of the stream: a time, names that place it, tags, and fields by type.
/// Double fields are held as the 64 bits of their IEEE 754 form.
#[derive(Debug)]
pub struct Point {
    pub time: i64,
    pub name: String,
    pub database: String,
    pub retention_policy: String,
    pub group: String,
    pub dimensions: Vec<String>,
    pub tags: Dict<String>,
    pub fields_double: Dict<u64>,
    pub fields_int: Dict<i64>,
    pub fields_string: Dict<String>,
    pub fields_bool: Dict<bool>,
    pub by_name: bool,
}

impl Point {
    /// A record at time 0 with empty names, no tags and no fields.
    pub fn new() -> (r: Self)
        ensures
            r.time == 0,
            r.name@.len() == 0,
            r.database@.len() == 0,
            r.retention_policy@.len() == 0,
            r.group@.len() == 0,
            r.dimensions@.len() == 0,
            r.tags@ == Map::<Seq<char>, String>::empty(),
            r.fields_double@ == Map::<Seq<char>, u64>::empty(),
            r.fields_int@ == Map::<Seq<char>, i64>::empty(),
            r.fields_string@ == Map::<Seq<char>, String>::empty(),
            r.fields_bool@ == Map::<Seq<char>, bool>::empty(),
            !r.by_name,
    {
        Point {
            time: 0,
            name: String::new(),
            database: String::new(),
            retention_policy: String::new(),
            group: String::new(),
            dimensions: Vec::new(),
            tags: Dict::new(),
            fields_double: Dict::new(),
            fields_int: Dict::new(),
            fields_string: Dict::new(),
            fields_bool: Dict::new(),
            by_name: false,
        }
    }
}

} // verus!
