//! Documents: ordered field-value mappings carrying a distinguished `__id`
//! field that identifies the document within its index.

use vstd::prelude::*;

verus! {

/// One named field of a document.
#[derive(Debug, PartialEq, Eq)]
pub struct DocField {
    pub name: String,
    pub value: String,
}

/// A document: an ordered sequence of named text fields. The store enforces
/// uniqueness of the `__id` field per index by delete-then-insert, not via a
/// uniqueness constraint, so nothing here requires the id to be unique.
#[derive(Debug, PartialEq, Eq)]
pub struct Document {
    pub fields: Vec<DocField>,
}

impl View for DocField {
    type V = (Seq<char>, Seq<char>);

    open spec fn view(&self) -> (Seq<char>, Seq<char>) {
        (self.name@, self.value@)
    }
}

impl View for Document {
    type V = Seq<(Seq<char>, Seq<char>)>;

    open spec fn view(&self) -> Seq<(Seq<char>, Seq<char>)> {
        self.fields@.map_values(|f: DocField| f@)
    }
}

/// The name of the distinguished identifier field.
pub open spec fn id_field_name() -> Seq<char> {
    "__id"@
}

/// The value of the first `__id` field of a document, if any.
pub open spec fn doc_id_of(fields: Seq<(Seq<char>, Seq<char>)>) -> Option<Seq<char>>
    decreases fields.len(),
{
    if fields.len() == 0 {
        None
    } else if fields[0].0 == id_field_name() {
        Some(fields[0].1)
    } else {
        doc_id_of(fields.drop_first())
    }
}

impl Document {
    /// An empty document.
    pub fn new() -> (r: Document)
        ensures
            r@ == Seq::<(Seq<char>, Seq<char>)>::empty(),
    {
        let r = Document { fields: Vec::new() };
        assert(r@ =~= Seq::<(Seq<char>, Seq<char>)>::empty());
        r
    }

    pub open spec fn spec_id(&self) -> Option<Seq<char>> {
        doc_id_of(self@)
    }

    /// Appends a text field, preserving the order of the fields before it.
    pub fn add_text(&mut self, name: &str, value: &str)
        ensures
            final(self)@ == old(self)@.push((name@, value@)),
    {
        let f = DocField { name: name.to_owned(), value: value.to_owned() };
        self.fields.push(f);
        assert(self@ =~= old(self)@.push((name@, value@)));
    }

    /// The value of the document's first `__id` field, if one is present.
    pub fn get_id(&self) -> (r: Option<&String>)
        ensures
            match r {
                Some(s) => self.spec_id() == Some(s@),
                None => self.spec_id() is None,
            },
    {
        let key: String = "__id".to_owned();
        let mut i: usize = 0;
        assert(self@.skip(0) =~= self@);
        while i < self.fields.len()
            invariant
                i <= self.fields.len(),
                key@ == id_field_name(),
                doc_id_of(self@) == doc_id_of(self@.skip(i as int)),
            decreases self.fields.len() - i,
        {
            if self.fields[i].name == key {
                assert(self@.skip(i as int)[0] == self@[i as int]);
                return Some(&self.fields[i].value);
            }
            assert(self@.skip(i as int)[0] == self@[i as int]);
            assert(self@.skip(i as int).drop_first() =~= self@.skip(i + 1));
            i = i + 1;
        }
        assert(self@.skip(i as int).len() == 0);
        None
    }

    /// A field-for-field copy of the document.
    pub fn duplicate(&self) -> (r: Document)
        ensures
            r@ == self@,
    {
        let mut fields: Vec<DocField> = Vec::new();
        let mut i: usize = 0;
        while i < self.fields.len()
            invariant
                i <= self.fields.len(),
                fields@.map_values(|f: DocField| f@) =~= self@.take(i as int),
            decreases self.fields.len() - i,
        {
            let f = DocField {
                name: self.fields[i].name.clone(),
                value: self.fields[i].value.clone(),
            };
            let ghost prev = fields@;
            assert(f@ == self@[i as int]);
            fields.push(f);
            assert(fields@.map_values(|f: DocField| f@) =~= prev.map_values(
                |f: DocField| f@,
            ).push(self@[i as int]));
            assert(self@.take(i + 1) =~= self@.take(i as int).push(self@[i as int]));
            i = i + 1;
        }
        let r = Document { fields };
        assert(r@ =~= self@);
        r
    }
}

} // verus!
