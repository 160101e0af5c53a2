//! The document schema: the fixed set of indexed and stored fields.
//!
//! Schema construction is deterministic and side-effect-free; this module
//! is the single source of truth for field identifiers, used by the
//! writer side and the query builder alike. Looking up a declared field
//! name always succeeds; looking up an undeclared name yields nothing and
//! marks a programming error at the call site.

use vstd::prelude::*;
use crate::text::char_vec;

verus! {

/// The six fields of an indexed document.
#[derive(Clone, Copy, Debug, PartialEq, Eq, Structural)]
pub enum SchemaField {
    FileId,
    Name,
    DateModified,
    Path,
    Metadata,
    Popularity,
}

/// Storage and indexing capability of one field. A fast field is a
/// column-oriented stored value for random access at scoring time, not a
/// tokenized searchable one.
#[derive(Clone, Copy, Debug)]
pub struct FieldCapability {
    pub indexed: bool,
    pub stored: bool,
    pub fast: bool,
}

impl SchemaField {
    /// The field's identifier in the persisted schema.
    pub open spec fn spec_name(self) -> Seq<char> {
        match self {
            SchemaField::FileId => "file_id"@,
            SchemaField::Name => "name"@,
            SchemaField::DateModified => "date_modified"@,
            SchemaField::Path => "path"@,
            SchemaField::Metadata => "metadata"@,
            SchemaField::Popularity => "popularity"@,
        }
    }

    /// The field's identifier, runtime form.
    pub fn name(&self) -> (r: &'static str)
        ensures
            r@ == self.spec_name(),
    {
        match self {
            SchemaField::FileId => "file_id",
            SchemaField::Name => "name",
            SchemaField::DateModified => "date_modified",
            SchemaField::Path => "path",
            SchemaField::Metadata => "metadata",
            SchemaField::Popularity => "popularity",
        }
    }

    /// What the field supports: the text fields and the timestamp are
    /// indexed and stored; the popularity signal is a stored fast field
    /// only.
    pub open spec fn spec_capability(self) -> FieldCapability {
        match self {
            SchemaField::Popularity => (FieldCapability { indexed: false, stored: true, fast: true }),
            _ => (FieldCapability { indexed: true, stored: true, fast: false }),
        }
    }

    /// The field's capability, runtime form.
    pub fn capability(&self) -> (c: FieldCapability)
        ensures
            c == self.spec_capability(),
    {
        match self {
            SchemaField::Popularity => FieldCapability { indexed: false, stored: true, fast: true },
            _ => FieldCapability { indexed: true, stored: true, fast: false },
        }
    }
}

/// Every declared field, in schema order.
pub open spec fn declared_fields() -> Seq<SchemaField> {
    seq![
        SchemaField::FileId,
        SchemaField::Name,
        SchemaField::DateModified,
        SchemaField::Path,
        SchemaField::Metadata,
        SchemaField::Popularity,
    ]
}

/// Build the document schema: the declared fields in their fixed order.
/// Deterministic and side-effect-free.
pub fn create_schema() -> (fields: Vec<SchemaField>)
    ensures
        fields@ == declared_fields(),
{
    let mut fields: Vec<SchemaField> = Vec::new();
    fields.push(SchemaField::FileId);
    fields.push(SchemaField::Name);
    fields.push(SchemaField::DateModified);
    fields.push(SchemaField::Path);
    fields.push(SchemaField::Metadata);
    fields.push(SchemaField::Popularity);
    proof {
        assert(fields@ =~= declared_fields());
    }
    fields
}

/// The field a name denotes, if it is declared.
pub open spec fn spec_lookup(name: Seq<char>) -> Option<SchemaField> {
    if name == "file_id"@ {
        Some(SchemaField::FileId)
    } else if name == "name"@ {
        Some(SchemaField::Name)
    } else if name == "date_modified"@ {
        Some(SchemaField::DateModified)
    } else if name == "path"@ {
        Some(SchemaField::Path)
    } else if name == "metadata"@ {
        Some(SchemaField::Metadata)
    } else if name == "popularity"@ {
        Some(SchemaField::Popularity)
    } else {
        None
    }
}

/// Character-wise equality of two texts.
fn chars_eq(a: &Vec<char>, b: &Vec<char>) -> (r: bool)
    ensures
        r == (a@ == b@),
{
    if a.len() != b.len() {
        assert(a@ != b@) by {
            assert(a@.len() != b@.len());
        }
        return false;
    }
    let mut i: usize = 0;
    while i < a.len()
        invariant
            i <= a@.len(),
            a@.len() == b@.len(),
            forall|k: int| 0 <= k < i ==> a@[k] == b@[k],
        decreases a@.len() - i,
    {
        if a[i] != b[i] {
            assert(a@ != b@);
            return false;
        }
        i = i + 1;
    }
    assert(a@ =~= b@);
    true
}

/// Look a field up by name. Exactly the declared names succeed.
pub fn lookup_field(name: &str) -> (r: Option<SchemaField>)
    ensures
        r == spec_lookup(name@),
{
    let v = char_vec(name);
    if chars_eq(&v, &char_vec("file_id")) {
        Some(SchemaField::FileId)
    } else if chars_eq(&v, &char_vec("name")) {
        Some(SchemaField::Name)
    } else if chars_eq(&v, &char_vec("date_modified")) {
        Some(SchemaField::DateModified)
    } else if chars_eq(&v, &char_vec("path")) {
        Some(SchemaField::Path)
    } else if chars_eq(&v, &char_vec("metadata")) {
        Some(SchemaField::Metadata)
    } else if chars_eq(&v, &char_vec("popularity")) {
        Some(SchemaField::Popularity)
    } else {
        None
    }
}

/// Field lookup law: looking up the name of a declared field returns
/// that field — a failed lookup can only mean an undeclared name.
pub proof fn lemma_declared_lookup()
    ensures
        forall|f: SchemaField| #[trigger] spec_lookup(f.spec_name()) == Some(f),
{
    reveal_strlit("file_id");
    reveal_strlit("name");
    reveal_strlit("date_modified");
    reveal_strlit("path");
    reveal_strlit("metadata");
    reveal_strlit("popularity");
    assert("file_id"@.len() == 7);
    assert("name"@.len() == 4);
    assert("date_modified"@.len() == 13);
    assert("path"@.len() == 4);
    assert("metadata"@.len() == 8);
    assert("popularity"@.len() == 10);
    assert("path"@[0] == 'p' && "name"@[0] == 'n');
    assert forall|f: SchemaField| #[trigger] spec_lookup(f.spec_name()) == Some(f) by {
        match f {
            SchemaField::FileId => {},
            SchemaField::Name => {
                assert("name"@ != "file_id"@);
            },
            SchemaField::DateModified => {
                assert("date_modified"@ != "file_id"@);
                assert("date_modified"@ != "name"@);
            },
            SchemaField::Path => {
                assert("path"@ != "file_id"@);
                assert("path"@ != "name"@);
                assert("path"@ != "date_modified"@);
            },
            SchemaField::Metadata => {
                assert("metadata"@ != "file_id"@);
                assert("metadata"@ != "name"@);
                assert("metadata"@ != "date_modified"@);
                assert("metadata"@ != "path"@);
            },
            SchemaField::Popularity => {
                assert("popularity"@ != "file_id"@);
                assert("popularity"@ != "name"@);
                assert("popularity"@ != "date_modified"@);
                assert("popularity"@ != "path"@);
                assert("popularity"@ != "metadata"@);
            },
        }
    }
}

} // verus!
