use vstd::prelude::*;

verus! {

/// A parsed configuration document: a tree of nodes. Only the shapes the
/// pipeline reads are distinguished; every other node kind is `Other`.
/// A mapping keeps its entries in document order and only string-valued
/// keys are retained.
pub enum Document {
    Str(String),
    Mapping(Vec<(String, Document)>),
    List(Vec<Document>),
    Other,
}

/// First value bound to `key` in an association list of document entries,
/// or `None` when the key is absent.
pub open spec fn entries_get(entries: Seq<(String, Document)>, key: Seq<char>) -> Option<Document>
    decreases entries.len(),
{
    if entries.len() == 0 {
        None
    } else if entries[0].0@ == key {
        Some(entries[0].1)
    } else {
        entries_get(entries.skip(1), key)
    }
}

impl Document {
    /// The node's string content, when it is a string node.
    pub open spec fn spec_str(self) -> Option<Seq<char>> {
        match self {
            Document::Str(s) => Some(s@),
            _ => None,
        }
    }

    /// The child bound to `key`, when the node is a mapping that has it.
    pub open spec fn spec_get(self, key: Seq<char>) -> Option<Document> {
        match self {
            Document::Mapping(entries) => entries_get(entries@, key),
            _ => None,
        }
    }

    /// The string bound to `key`: present exactly when the node is a
    /// mapping, the key is there, and its value is a string node.
    pub open spec fn spec_get_str(self, key: Seq<char>) -> Option<Seq<char>> {
        match self.spec_get(key) {
            Some(d) => d.spec_str(),
            None => None,
        }
    }
}

/// Character-by-character string equality; avoids relying on any derived
/// comparison of `str`.
pub fn str_eq(a: &str, b: &str) -> (r: bool)
    ensures
        r == (a@ == b@),
{
    let alen = a.unicode_len();
    let blen = b.unicode_len();
    if alen != blen {
        proof {
            assert(a@ != b@) by {
                assert(a@.len() != b@.len());
            }
        }
        return false;
    }
    let mut i: usize = 0;
    while i < alen
        invariant
            alen == a@.len(),
            alen == b@.len(),
            i <= alen,
            forall|j: int| 0 <= j < i ==> a@[j] == b@[j],
        decreases alen - i,
    {
        if a.get_char(i) != b.get_char(i) {
            proof {
                assert(a@[i as int] != b@[i as int]);
            }
            return false;
        }
        i = i + 1;
    }
    proof {
        assert(a@ =~= b@);
    }
    true
}

impl Document {
    /// The node's string content, when it is a string node.
    pub fn as_str<'a>(&'a self) -> (r: Option<&'a String>)
        ensures
            match r {
                Some(s) => self.spec_str() == Some(s@),
                None => self.spec_str() is None,
            },
    {
        match self {
            Document::Str(s) => Some(s),
            _ => None,
        }
    }

    /// The child bound to `key`, when this node is a mapping that has it.
    pub fn get<'a>(&'a self, key: &str) -> (r: Option<&'a Document>)
        ensures
            match r {
                Some(d) => self.spec_get(key@) == Some(*d),
                None => self.spec_get(key@) is None,
            },
    {
        match self {
            Document::Mapping(entries) => {
                let n = entries.len();
                let mut i: usize = 0;
                proof {
                    assert(entries@.skip(0) =~= entries@);
                }
                while i < n
                    invariant
                        n == entries@.len(),
                        i <= n,
                        self.spec_get(key@) == entries_get(entries@, key@),
                        entries_get(entries@, key@) == entries_get(entries@.skip(i as int), key@),
                    decreases n - i,
                {
                    if str_eq(entries[i].0.as_str(), key) {
                        proof {
                            let rest = entries@.skip(i as int);
                            assert(rest.len() == n - i);
                            assert(rest[0] == entries@[i as int]);
                            assert(entries_get(rest, key@) == Some(rest[0].1));
                        }
                        return Some(&entries[i].1);
                    }
                    proof {
                        assert(entries@.skip(i as int)[0] == entries@[i as int]);
                        reveal_with_fuel(entries_get, 2);
                        assert(entries@.skip(i as int).skip(1) =~= entries@.skip(i + 1));
                    }
                    i = i + 1;
                }
                proof {
                    assert(entries@.skip(i as int).len() == 0);
                }
                None
            },
            _ => None,
        }
    }

    /// The string bound to `key` in this mapping node, if any.
    pub fn get_str<'a>(&'a self, key: &str) -> (r: Option<&'a String>)
        ensures
            match r {
                Some(s) => self.spec_get_str(key@) == Some(s@),
                None => self.spec_get_str(key@) is None,
            },
    {
        match self.get(key) {
            Some(d) => d.as_str(),
            None => None,
        }
    }
}

/// The first document that parsing the given text yields, rendered as a
/// `Document` tree, or `None` when the text is not well-formed or holds no
/// document. Parsing is a function of the text alone.
pub uninterp spec fn yaml_doc_of(text: Seq<char>) -> Option<Document>;

/// The contents of a parsed node, rendered as a `Document` tree: strings,
/// string-keyed mapping entries in document order, and list elements; every
/// other node kind becomes `Document::Other`.
pub uninterp spec fn yaml_view(y: yaml_rust::Yaml) -> Document;

#[verifier::external_type_specification]
#[verifier::external_body]
pub struct ExYaml(yaml_rust::Yaml);

/// Relies on yaml_rust::YamlLoader::load_from_str: parses the text into its
/// documents, in order, as a function of the text alone. The wrapper keeps
/// the first document; a scan error or an empty stream is folded into
/// `None`.
#[verifier::external_body]
fn load_first_yaml(text: &str) -> (r: Option<yaml_rust::Yaml>)
    ensures
        match r {
            Some(y) => yaml_doc_of(text@) == Some(yaml_view(y)),
            None => yaml_doc_of(text@) is None,
        },
{
    let docs = yaml_rust::YamlLoader::load_from_str(text).ok()?;
    docs.into_iter().next()
}

/// Relies on the yaml_rust::Yaml node tree and Yaml::as_str: each variant
/// is mapped to the `Document` variant that stands for it, keeping mapping
/// entries in their document order and keeping only string-valued keys.
#[verifier::external_body]
fn yaml_to_document(y: &yaml_rust::Yaml) -> (d: Document)
    ensures
        d == yaml_view(*y),
{
    match y {
        yaml_rust::Yaml::String(s) => Document::Str(s.clone()),
        yaml_rust::Yaml::Array(items) => Document::List(items.iter().map(yaml_to_document).collect()),
        yaml_rust::Yaml::Hash(entries) => Document::Mapping(
            entries
                .iter()
                .filter_map(|(k, v)| k.as_str().map(|ks| (ks.to_owned(), yaml_to_document(v))))
                .collect(),
        ),
        _ => Document::Other,
    }
}

/// Parses text into the first document it holds; any parse failure or an
/// empty stream is folded into `None`.
pub fn parse_document(text: &str) -> (r: Option<Document>)
    ensures
        r == yaml_doc_of(text@),
{
    match load_first_yaml(text) {
        Some(y) => Some(yaml_to_document(&y)),
        None => None,
    }
}

} // verus!
