//! Builds the document set: for every accepted file, a document with its
//! injected metadata and its fragments under the configured budget.
//!
//! Reading the files from disk is the surrounding program's work; the
//! indexer takes each file's path and full text as plain values.

use vstd::prelude::*;

pub use crate::errors::Error;

use crate::documents::doc_wf;
use crate::documents::Document;
use crate::documents::Documents;
use crate::documents::MetaMap;
use crate::fragments::create_fragments_from_text;
use crate::fragments::fragments_of;
use crate::fragments::settings_budget;
use crate::ids::fragment_id;
use crate::ids::uuid_v5_oid;
use crate::ids::uuid_v5_string;
use crate::settings::SettingVal;
use crate::settings::Settings;
use crate::startup::has_str;
use crate::startup::str_of;
use crate::strutil::base_name_str;
use crate::strutil::basename;
use crate::strutil::ext_of;
use crate::strutil::file_extension;
use crate::strutil::file_stem;
use crate::strutil::stem_of;

verus! {

/// The extension recorded in a document's metadata: the file name's
/// extension, or the empty string when it has none.
pub open spec fn ext_or_empty(name: Seq<char>) -> Seq<char> {
    match ext_of(name) {
        Some(e) => e,
        None => Seq::empty(),
    }
}

/// A document's metadata: the base metadata with the path, file name,
/// extension and file stem injected.
pub open spec fn injected_metadata(base: Map<Seq<char>, Seq<char>>, path: Seq<char>) -> Map<
    Seq<char>,
    Seq<char>,
> {
    base.insert("path"@, path).insert("file_name"@, basename(path)).insert(
        "extension"@,
        ext_or_empty(basename(path)),
    ).insert("file_stem"@, stem_of(basename(path)))
}

/// The document built for one accepted file: name and identifier derived
/// from the file name, the injected metadata, and one fragment per
/// fragmenter output, each carrying the fragment identifier for its
/// position and a snapshot of the document's metadata.
pub open spec fn document_built(
    d: Document,
    path: Seq<char>,
    content: Seq<char>,
    base: Map<Seq<char>, Seq<char>>,
    budget: usize,
) -> bool {
    &&& d.name@ == basename(path)
    &&& d.id@ == uuid_v5_oid(basename(path))
    &&& d.text@ == content
    &&& d.metadata@ == injected_metadata(base, path)
    &&& d.fragments@.len() == fragments_of(content, budget).len()
    &&& forall|i: int|
        0 <= i < d.fragments@.len() ==> (#[trigger] d.fragments@[i]).text@ == fragments_of(
            content,
            budget,
        )[i] && d.fragments@[i].id@ == fragment_id(d.id@, i as nat)
            && d.fragments@[i].document_id@ == d.id@ && d.fragments@[i].metadata@ == d.metadata@
}

/// Build the document for one accepted file: inject the metadata, derive
/// the identifier from the file name, and fragment the text.
pub fn obtain_data(path: &str, content: String, base_metadata: &MetaMap, settings: &Settings)
    -> (r: Document)
    requires
        base_metadata.wf(),
        settings.wf(),
    ensures
        document_built(r, path@, content@, base_metadata@, settings_budget(settings@)),
        r.metadata.wf(),
        doc_wf(r),
{
    let name = base_name_str(path).to_owned();
    let id = uuid_v5_string(name.as_str());
    let extension: String = match file_extension(name.as_str()) {
        Some(ext) => ext.to_owned(),
        None => String::new(),
    };
    let stem = file_stem(name.as_str()).to_owned();
    let mut metadata = base_metadata.clone();
    metadata.insert("path".to_owned(), path.to_owned());
    metadata.insert("file_name".to_owned(), name.clone());
    metadata.insert("extension".to_owned(), extension);
    metadata.insert("file_stem".to_owned(), stem);
    let ghost content0 = content@;
    let fragments = create_fragments_from_text(content.clone(), settings);
    let ghost frag_texts = fragments_of(content@, settings_budget(settings@));
    let mut document = Document {
        name: name,
        id: id,
        text: content,
        fragments: Vec::new(),
        metadata: metadata,
    };
    let n = fragments.len();
    let mut i: usize = 0;
    while i < n
        invariant
            i <= n,
            n == fragments@.len(),
            n == frag_texts.len(),
            forall|k: int| 0 <= k < n ==> (#[trigger] fragments@[k])@ == frag_texts[k],
            document.metadata.wf(),
            document.id@ == uuid_v5_oid(basename(path@)),
            document.name@ == basename(path@),
            document.text@ == content0,
            document.metadata@ == injected_metadata(base_metadata@, path@),
            document.fragments@.len() == i,
            forall|k: int|
                0 <= k < i ==> (#[trigger] document.fragments@[k]).text@ == frag_texts[k]
                    && document.fragments@[k].id@ == fragment_id(document.id@, k as nat)
                    && document.fragments@[k].document_id@ == document.id@
                    && document.fragments@[k].metadata@ == document.metadata@,
        decreases n - i,
    {
        document.add_fragment(fragments[i].clone(), i);
        proof {
            assert forall|k: int| 0 <= k < i + 1 implies (#[trigger] document.fragments@[k]).text@
                == frag_texts[k] && document.fragments@[k].id@ == fragment_id(
                document.id@,
                k as nat,
            ) && document.fragments@[k].document_id@ == document.id@
                && document.fragments@[k].metadata@ == document.metadata@ by {
                if k < i {
                    assert(document.fragments@[k] == document.fragments@.drop_last()[k]);
                } else {
                    assert(document.fragments@[k] == document.fragments@.last());
                }
            }
        }
        i += 1;
    }
    document
}

/// The collection name the settings ask for, or the empty name.
pub open spec fn collection_of(m: Map<Seq<char>, SettingVal>) -> Seq<char> {
    if has_str(m, "database.collection"@) {
        str_of(m["database.collection"@])
    } else {
        Seq::empty()
    }
}

/// Build the document set for the accepted files: one document per
/// `(path, full text)` pair, in order, under the configured collection
/// name. An empty file list gives a valid, empty document set.
pub fn build_index(files: &Vec<(String, String)>, settings: &Settings, base_metadata: &MetaMap)
    -> (r: Documents)
    requires
        settings.wf(),
        base_metadata.wf(),
    ensures
        r.collection@ == collection_of(settings@),
        r.metadata@ == Map::<Seq<char>, Seq<char>>::empty(),
        r.documents@.len() == files@.len(),
        forall|i: int|
            0 <= i < files@.len() ==> document_built(
                #[trigger] r.documents@[i],
                files@[i].0@,
                files@[i].1@,
                base_metadata@,
                settings_budget(settings@),
            ) && doc_wf(r.documents@[i]),
{
    let mut documents = Documents::new();
    match settings.get_str("database.collection") {
        Some(collection) => {
            documents.collection = collection.clone();
        },
        None => {},
    }
    let n = files.len();
    let mut i: usize = 0;
    while i < n
        invariant
            i <= n,
            n == files@.len(),
            base_metadata.wf(),
            settings.wf(),
            documents.collection@ == collection_of(settings@),
            documents.metadata@ == Map::<Seq<char>, Seq<char>>::empty(),
            documents.documents@.len() == i,
            forall|k: int|
                0 <= k < i ==> document_built(
                    #[trigger] documents.documents@[k],
                    files@[k].0@,
                    files@[k].1@,
                    base_metadata@,
                    settings_budget(settings@),
                ) && doc_wf(documents.documents@[k]),
        decreases n - i,
    {
        let entry = &files[i];
        let document = obtain_data(entry.0.as_str(), entry.1.clone(), base_metadata, settings);
        documents.add(document);
        i += 1;
    }
    documents
}

} // verus!
