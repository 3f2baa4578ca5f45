//! The schema tree handed to the transformer: a root with an optional base
//! URL, a class name, and insertion-ordered children; a child is either an
//! endpoint or a nested group.  A child key prefixed with `~` in the source
//! document denotes a group; the loader strips the prefix with
//! [`split_child_key`].

use linked_hash_map::LinkedHashMap;
use vstd::prelude::*;
use vstd::string::StrSliceExecFns;

verus! {

/// The insertion-ordered children of the root or of a group.
#[derive(Debug)]
pub struct APIDataMap(pub Vec<(String, APIData)>);

/// One child of the root or of a group.
#[derive(Debug)]
pub enum APIData {
    API(APISchema),
    APISet(APISetSchema),
}

/// An endpoint: HTTP method, URL expression and the declared query and body
/// parameters.
#[derive(Debug)]
pub struct APISchema {
    pub method: String,
    pub params: LinkedHashMap<String, Option<String>>,
    pub data: LinkedHashMap<String, Option<String>>,
    pub url: String,
}

/// A group: a URL expression and nested children.
#[derive(Debug)]
pub struct APISetSchema {
    pub url: String,
    pub apisets: APIDataMap,
}

/// The root of a schema document.
#[derive(Debug)]
pub struct RootSchema {
    pub url: Option<String>,
    pub klsname: String,
    pub apisets: APIDataMap,
}

impl RootSchema {
    /// The class name used when the document declares none.
    pub fn default_klsname() -> (r: String)
        ensures
            r@ == "XSClient"@,
    {
        "XSClient".to_owned()
    }
}

impl APISchema {
    /// The HTTP method used when the document declares none.
    pub fn default_method() -> (r: String)
        ensures
            r@ == "GET"@,
    {
        "GET".to_owned()
    }

    /// The query-parameter mapping used when the document declares none.
    pub fn default_params() -> (r: LinkedHashMap<String, Option<String>>)
        ensures
            crate::ordered::opt_map_entries(r) == Seq::<(Seq<char>, Option<Seq<char>>)>::empty(),
    {
        crate::ordered::opt_map_new()
    }

    /// The body-field mapping used when the document declares none.
    pub fn default_data() -> (r: LinkedHashMap<String, Option<String>>)
        ensures
            crate::ordered::opt_map_entries(r) == Seq::<(Seq<char>, Option<Seq<char>>)>::empty(),
    {
        crate::ordered::opt_map_new()
    }

    /// The URL expression used when the document declares none.
    pub fn default_url() -> (r: String)
        ensures
            r@ == "${!super.url}"@,
    {
        "${!super.url}".to_owned()
    }
}

impl APISetSchema {
    /// The URL expression used when the document declares none.
    pub fn default_url() -> (r: String)
        ensures
            r@ == "${!super.url}"@,
    {
        "${!super.url}".to_owned()
    }
}

/// Classifies a raw child key: a leading `~` marks a group and is stripped
/// from the name; any other key names an endpoint unchanged.
pub fn split_child_key(key: &str) -> (r: (bool, String))
    ensures
        key@.len() > 0 && key@[0] == '~' ==> r.0 && r.1@ == key@.skip(1),
        !(key@.len() > 0 && key@[0] == '~') ==> !r.0 && r.1@ == key@,
{
    let n = key.unicode_len();
    if n > 0 && key.get_char(0) == '~' {
        let rest = key.substring_char(1, n);
        proof {
            assert(rest@ =~= key@.skip(1));
        }
        (true, rest.to_owned())
    } else {
        (false, key.to_owned())
    }
}

} // verus!
