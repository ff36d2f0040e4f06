//! In-memory representation of documents, fragments, and their embedded
//! counterparts, plus metadata propagation.
//!
//! Metadata is a mapping from string keys to opaque value texts (the
//! serialized form of arbitrary values); the map never holds duplicate keys,
//! and a later insert for an existing key overrides the earlier value.

use vstd::prelude::*;

use crate::ids::fragment_id;
use crate::ids::make_fragment_id;
use crate::strutil::str_eq;

verus! {

/// Whether an embedding model is loaded from a local path or fetched by a
/// remote model name.
pub enum ModelLocation {
    Local,
    Remote,
}

/// The abstract contents of a sequence of metadata entries: a map from key
/// to value text, later entries overriding earlier ones.
pub closed spec fn map_of(s: Seq<(String, String)>) -> Map<Seq<char>, Seq<char>>
    decreases s.len(),
{
    if s.len() == 0 {
        Map::empty()
    } else {
        map_of(s.drop_last()).insert(s.last().0@, s.last().1@)
    }
}

/// No two entries of the sequence share a key.
spec fn keys_unique(s: Seq<(String, String)>) -> bool {
    forall|i: int, j: int|
        0 <= i < j < s.len() ==> (#[trigger] s[i]).0@ != (#[trigger] s[j]).0@
}

proof fn lemma_map_of_contains(s: Seq<(String, String)>, k: Seq<char>)
    ensures
        map_of(s).contains_key(k) <==> exists|i: int| 0 <= i < s.len() && (#[trigger] s[i]).0@
            == k,
    decreases s.len(),
{
    if s.len() > 0 {
        lemma_map_of_contains(s.drop_last(), k);
        if map_of(s).contains_key(k) {
            if s.last().0@ == k {
                assert((s[s.len() - 1]).0@ == k);
            } else {
                let i = choose|i: int|
                    0 <= i < s.drop_last().len() && (#[trigger] s.drop_last()[i]).0@ == k;
                assert((s[i]).0@ == k);
            }
        }
        if exists|i: int| 0 <= i < s.len() && (#[trigger] s[i]).0@ == k {
            let i = choose|i: int| 0 <= i < s.len() && (#[trigger] s[i]).0@ == k;
            if i < s.len() - 1 {
                assert((s.drop_last()[i]).0@ == k);
            }
        }
    }
}

proof fn lemma_map_of_lookup(s: Seq<(String, String)>, i: int)
    requires
        keys_unique(s),
        0 <= i < s.len(),
    ensures
        map_of(s).contains_key(s[i].0@),
        map_of(s)[s[i].0@] == s[i].1@,
    decreases s.len(),
{
    if i == s.len() - 1 {
    } else {
        assert(keys_unique(s.drop_last()));
        assert(s.drop_last()[i] == s[i]);
        lemma_map_of_lookup(s.drop_last(), i);
        assert(s[i].0@ != s.last().0@);
    }
}

proof fn lemma_map_of_update(s: Seq<(String, String)>, i: int, kv: (String, String))
    requires
        keys_unique(s),
        0 <= i < s.len(),
        s[i].0@ == kv.0@,
    ensures
        map_of(s.update(i, kv)) == map_of(s).insert(kv.0@, kv.1@),
    decreases s.len(),
{
    let u = s.update(i, kv);
    if i == s.len() - 1 {
        assert(u.drop_last() =~= s.drop_last());
        assert(u.last() == kv);
        assert(map_of(s.drop_last()).insert(kv.0@, kv.1@) =~= map_of(s.drop_last()).insert(
            s.last().0@,
            s.last().1@,
        ).insert(kv.0@, kv.1@));
    } else {
        assert(u.drop_last() =~= s.drop_last().update(i, kv));
        assert(u.last() == s.last());
        assert(keys_unique(s.drop_last()));
        assert(s.drop_last()[i] == s[i]);
        lemma_map_of_update(s.drop_last(), i, kv);
        assert(kv.0@ != s.last().0@);
        assert(map_of(s.drop_last()).insert(kv.0@, kv.1@).insert(s.last().0@, s.last().1@)
            =~= map_of(s.drop_last()).insert(s.last().0@, s.last().1@).insert(kv.0@, kv.1@));
    }
}

proof fn lemma_map_of_congruent(s1: Seq<(String, String)>, s2: Seq<(String, String)>)
    requires
        s1.len() == s2.len(),
        forall|i: int|
            0 <= i < s1.len() ==> (#[trigger] s1[i]).0@ == (#[trigger] s2[i]).0@ && s1[i].1@
                == s2[i].1@,
    ensures
        map_of(s1) == map_of(s2),
    decreases s1.len(),
{
    if s1.len() > 0 {
        assert(forall|i: int|
            0 <= i < s1.drop_last().len() ==> (#[trigger] s1.drop_last()[i]).0@ == (
            #[trigger] s2.drop_last()[i]).0@ && s1.drop_last()[i].1@ == s2.drop_last()[i].1@);
        lemma_map_of_congruent(s1.drop_last(), s2.drop_last());
        assert(s1.last().0@ == s2.last().0@ && s1.last().1@ == s2.last().1@);
    }
}

/// A metadata map: string keys to opaque value texts, without duplicate
/// keys.
pub struct MetaMap {
    entries: Vec<(String, String)>,
}

impl View for MetaMap {
    type V = Map<Seq<char>, Seq<char>>;

    closed spec fn view(&self) -> Map<Seq<char>, Seq<char>> {
        map_of(self.entries@)
    }
}

impl MetaMap {
    /// No two entries of the map share a key.
    pub closed spec fn wf(&self) -> bool {
        keys_unique(self.entries@)
    }

    /// An empty metadata map.
    pub fn new() -> (r: Self)
        ensures
            r@ == Map::<Seq<char>, Seq<char>>::empty(),
            r.wf(),
    {
        MetaMap { entries: Vec::new() }
    }

    /// Insert a key/value pair; an earlier value for the same key is
    /// overridden (last write wins).
    pub fn insert(&mut self, key: String, value: String)
        requires
            old(self).wf(),
        ensures
            final(self).wf(),
            final(self)@ == old(self)@.insert(key@, value@),
    {
        let n = self.entries.len();
        let mut i: usize = 0;
        while i < n
            invariant
                n == self.entries@.len(),
                i <= n,
                old(self).wf(),
                self.entries@ == old(self).entries@,
                forall|k: int| 0 <= k < i ==> (#[trigger] self.entries@[k]).0@ != key@,
            decreases n - i,
        {
            if self.entries[i].0 == key {
                proof {
                    lemma_map_of_update(self.entries@, i as int, (key, value));
                    let u = self.entries@.update(i as int, (key, value));
                    assert forall|a: int, b: int| 0 <= a < b < u.len() implies (
                    #[trigger] u[a]).0@ != (#[trigger] u[b]).0@ by {
                        assert(self.entries@[a].0@ != self.entries@[b].0@);
                        assert(u[a].0@ == self.entries@[a].0@);
                        assert(u[b].0@ == self.entries@[b].0@);
                    }
                }
                self.entries.set(i, (key, value));
                return ;
            }
            i += 1;
        }
        proof {
            assert(self.entries@.push((key, value)).drop_last() =~= self.entries@);
            assert(self.entries@.push((key, value)).last() == (key, value));
        }
        self.entries.push((key, value));
    }

    /// The map's entries as key/value pairs: every pair is a binding of the
    /// map, the keys are pairwise distinct, and every key of the map
    /// appears.
    pub fn to_pairs(&self) -> (r: Vec<(String, String)>)
        requires
            self.wf(),
        ensures
            forall|i: int|
                0 <= i < r@.len() ==> self@.contains_key((#[trigger] r@[i]).0@) && self@[r@[i].0@]
                    == r@[i].1@,
            forall|i: int, j: int|
                0 <= i < j < r@.len() ==> (#[trigger] r@[i]).0@ != (#[trigger] r@[j]).0@,
            forall|k: Seq<char>|
                self@.contains_key(k) ==> exists|i: int|
                    0 <= i < r@.len() && (#[trigger] r@[i]).0@ == k,
    {
        let n = self.entries.len();
        let mut r: Vec<(String, String)> = Vec::new();
        let mut i: usize = 0;
        while i < n
            invariant
                n == self.entries@.len(),
                self.wf(),
                i <= n,
                r@.len() == i,
                forall|k: int|
                    0 <= k < i ==> (#[trigger] r@[k]).0@ == self.entries@[k].0@ && r@[k].1@
                        == self.entries@[k].1@,
            decreases n - i,
        {
            let e = &self.entries[i];
            r.push((e.0.clone(), e.1.clone()));
            proof {
                lemma_map_of_lookup(self.entries@, i as int);
            }
            i += 1;
        }
        proof {
            assert forall|k: Seq<char>| self@.contains_key(k) implies exists|i: int|
                0 <= i < r@.len() && (#[trigger] r@[i]).0@ == k by {
                lemma_map_of_contains(self.entries@, k);
                let j = choose|j: int|
                    0 <= j < self.entries@.len() && (#[trigger] self.entries@[j]).0@ == k;
                assert(r@[j].0@ == k);
            }
            assert forall|i: int| 0 <= i < r@.len() implies self@.contains_key(
                (#[trigger] r@[i]).0@,
            ) && self@[r@[i].0@] == r@[i].1@ by {
                lemma_map_of_lookup(self.entries@, i);
            }
        }
        r
    }

    /// Look up a key: the value text if the key is present, nothing
    /// otherwise.
    pub fn get(&self, key: &str) -> (r: Option<&String>)
        requires
            self.wf(),
        ensures
            match r {
                Some(v) => self@.contains_key(key@) && v@ == self@[key@],
                None => !self@.contains_key(key@),
            },
    {
        let n = self.entries.len();
        let mut i: usize = 0;
        while i < n
            invariant
                n == self.entries@.len(),
                self.wf(),
                i <= n,
                forall|k: int| 0 <= k < i ==> (#[trigger] self.entries@[k]).0@ != key@,
            decreases n - i,
        {
            if str_eq(self.entries[i].0.as_str(), key) {
                proof {
                    lemma_map_of_lookup(self.entries@, i as int);
                }
                return Some(&self.entries[i].1);
            }
            i += 1;
        }
        proof {
            lemma_map_of_contains(self.entries@, key@);
        }
        None
    }
}

impl Clone for MetaMap {
    /// A clone is an independent snapshot with the same contents.
    fn clone(&self) -> (r: Self)
        ensures
            r@ == self@,
            self.wf() ==> r.wf(),
    {
        let n = self.entries.len();
        let mut entries: Vec<(String, String)> = Vec::new();
        let mut i: usize = 0;
        while i < n
            invariant
                n == self.entries@.len(),
                i <= n,
                entries@.len() == i,
                forall|k: int|
                    0 <= k < i ==> (#[trigger] entries@[k]).0@ == self.entries@[k].0@
                        && entries@[k].1@ == self.entries@[k].1@,
            decreases n - i,
        {
            let e = &self.entries[i];
            entries.push((e.0.clone(), e.1.clone()));
            i += 1;
        }
        proof {
            lemma_map_of_congruent(entries@, self.entries@);
        }
        MetaMap { entries }
    }
}

/// Base metadata applied to every document of a run.
pub struct MetaDataStore {
    pub metadata: MetaMap,
}

impl MetaDataStore {
    /// An empty metadata store.
    pub fn new() -> (r: Self)
        ensures
            r.metadata@ == Map::<Seq<char>, Seq<char>>::empty(),
            r.metadata.wf(),
    {
        MetaDataStore { metadata: MetaMap::new() }
    }
}

/// A bounded, order-preserving slice of a document's tokens, carrying a
/// snapshot of the parent document's metadata taken at creation time.
pub struct DocumentFragment {
    pub id: String,
    pub document_id: String,
    pub name: String,
    pub text: String,
    pub metadata: MetaMap,
}

impl DocumentFragment {
    /// An empty fragment.
    pub fn new() -> (r: Self)
        ensures
            r.id@ == Seq::<char>::empty(),
            r.document_id@ == Seq::<char>::empty(),
            r.name@ == Seq::<char>::empty(),
            r.text@ == Seq::<char>::empty(),
            r.metadata@ == Map::<Seq<char>, Seq<char>>::empty(),
            r.metadata.wf(),
    {
        DocumentFragment {
            id: String::new(),
            document_id: String::new(),
            name: String::new(),
            text: String::new(),
            metadata: MetaMap::new(),
        }
    }

    /// Pair this fragment with the embedding vector produced for it; the
    /// vector is carried as the bit patterns of its entries.
    pub fn to_embedded(&self, embeddings: Vec<u32>) -> (r: EmbeddedDocument)
        ensures
            r.id@ == self.id@,
            r.document_id@ == self.document_id@,
            r.name@ == self.name@,
            r.text@ == self.text@,
            r.metadata@ == self.metadata@,
            self.metadata.wf() ==> r.metadata.wf(),
            r.embeddings == embeddings,
    {
        EmbeddedDocument {
            id: self.id.clone(),
            document_id: self.document_id.clone(),
            name: self.name.clone(),
            text: self.text.clone(),
            metadata: self.metadata.clone(),
            embeddings,
        }
    }
}

/// A fragment together with its embedding vector, carried as the bit
/// patterns of the vector's entries.
pub struct EmbeddedDocument {
    pub id: String,
    pub document_id: String,
    pub name: String,
    pub text: String,
    pub embeddings: Vec<u32>,
    pub metadata: MetaMap,
}

/// One accepted input file: a stable content/name-derived identifier, the
/// raw text, the ordered fragments, and the metadata map.
pub struct Document {
    pub id: String,
    pub name: String,
    pub text: String,
    pub metadata: MetaMap,
    pub fragments: Vec<DocumentFragment>,
}

/// Every fragment of the document carries the identifier derived from the
/// document identifier and its ordinal position, and points back to its
/// parent.
pub open spec fn doc_wf(doc: Document) -> bool {
    forall|i: int|
        0 <= i < doc.fragments@.len() ==> (#[trigger] doc.fragments@[i]).id@ == fragment_id(
            doc.id@,
            i as nat,
        ) && doc.fragments@[i].document_id@ == doc.id@
}

impl Document {
    /// Append the fragment with the given text at the given ordinal
    /// position; the fragment snapshots the document's metadata.
    pub fn add_fragment(&mut self, fragment_text: String, index: usize)
        requires
            old(self).metadata.wf(),
        ensures
            final(self).id == old(self).id,
            final(self).name == old(self).name,
            final(self).text == old(self).text,
            final(self).metadata == old(self).metadata,
            final(self).fragments@.len() == old(self).fragments@.len() + 1,
            final(self).fragments@.drop_last() == old(self).fragments@,
            final(self).fragments@.last().id@ == fragment_id(old(self).id@, index as nat),
            final(self).fragments@.last().document_id@ == old(self).id@,
            final(self).fragments@.last().name@ == old(self).name@,
            final(self).fragments@.last().text@ == fragment_text@,
            final(self).fragments@.last().metadata@ == old(self).metadata@,
            final(self).fragments@.last().metadata.wf(),
    {
        let mut fragment = DocumentFragment::new();
        fragment.document_id = self.id.clone();
        fragment.id = make_fragment_id(self.id.as_str(), index);
        fragment.name = self.name.clone();
        fragment.text = fragment_text;
        fragment.metadata = self.metadata.clone();
        self.fragments.push(fragment);
        proof {
            assert(self.fragments@.drop_last() =~= old(self).fragments@);
        }
    }
}

/// Fragment identifiers are unique within a document: in a well-formed
/// document, fragments at distinct ordinal positions have distinct
/// identifiers.
pub proof fn lemma_document_fragment_ids_unique(doc: Document, i: int, j: int)
    requires
        doc_wf(doc),
        0 <= i < doc.fragments@.len(),
        0 <= j < doc.fragments@.len(),
        doc.fragments@[i].id@ == doc.fragments@[j].id@,
    ensures
        i == j,
{
    crate::ids::lemma_fragment_ids_unique(doc.id@, i as nat, j as nat);
}

/// An ordered collection of documents sharing one target collection name
/// and one base metadata map.
pub struct Documents {
    pub collection: String,
    pub documents: Vec<Document>,
    pub metadata: MetaMap,
}

impl Documents {
    /// An empty document set.
    pub fn new() -> (r: Self)
        ensures
            r.collection@ == Seq::<char>::empty(),
            r.documents@ == Seq::<Document>::empty(),
            r.metadata@ == Map::<Seq<char>, Seq<char>>::empty(),
            r.metadata.wf(),
    {
        Documents { documents: Vec::new(), metadata: MetaMap::new(), collection: String::new() }
    }

    /// Append a document to the set.
    pub fn add(&mut self, document: Document)
        ensures
            final(self).collection == old(self).collection,
            final(self).metadata == old(self).metadata,
            final(self).documents@ == old(self).documents@.push(document),
    {
        self.documents.push(document);
    }

    /// Pair this document set with the embedded fragments produced for it,
    /// carrying over the collection name and the base metadata.
    pub fn to_embedded(&self, documents: Vec<EmbeddedDocument>) -> (r: EmbeddedDocuments)
        ensures
            r.collection@ == self.collection@,
            r.metadata@ == self.metadata@,
            self.metadata.wf() ==> r.metadata.wf(),
            r.documents == documents,
    {
        let mut embedded_documents = EmbeddedDocuments::new();
        embedded_documents.collection = self.collection.clone();
        embedded_documents.metadata = self.metadata.clone();
        embedded_documents.documents = documents;
        embedded_documents
    }
}

/// The flattened collection of embedded fragments handed to the upsert
/// collaborator, with the collection name and base metadata of the document
/// set it came from.
pub struct EmbeddedDocuments {
    pub collection: String,
    pub documents: Vec<EmbeddedDocument>,
    pub metadata: MetaMap,
}

impl EmbeddedDocuments {
    /// An empty embedded document set.
    pub fn new() -> (r: Self)
        ensures
            r.collection@ == Seq::<char>::empty(),
            r.documents@ == Seq::<EmbeddedDocument>::empty(),
            r.metadata@ == Map::<Seq<char>, Seq<char>>::empty(),
            r.metadata.wf(),
    {
        EmbeddedDocuments {
            documents: Vec::new(),
            metadata: MetaMap::new(),
            collection: String::new(),
        }
    }
}

} // verus!
