//! The embedding worker: one long-lived model instance behind a FIFO
//! request queue.
//!
//! The model itself (load and inference) lives outside this crate; what is
//! modelled here is everything the worker decides: whether construction
//! succeeds, the FIFO order of the queue, and the assembly of an embedded
//! document set from a request's documents and the model's per-fragment
//! outputs. The surrounding loop performs the inference calls and hands
//! their outcomes in as plain values, so the assembly is verified for every
//! outcome the model can produce.

use vstd::prelude::*;

use crate::documents::Document;
use crate::documents::DocumentFragment;
use crate::documents::Documents;
use crate::documents::EmbeddedDocument;
use crate::documents::EmbeddedDocuments;
use crate::errors::Error;
use crate::strutil::str_eq;

verus! {

/// The embedding model families a remote source can name.
#[derive(Clone, Copy, PartialEq, Eq, Structural)]
pub enum ModelKind {
    L6,
    L12,
}

/// The model kind a remote model name selects; an unrecognized name falls
/// back to the larger model.
pub open spec fn model_kind_of(s: Seq<char>) -> ModelKind {
    if s == "L6"@ {
        ModelKind::L6
    } else {
        ModelKind::L12
    }
}

/// Map a remote model name to the model kind to load.
pub fn get_model_type(model_str: &str) -> (r: ModelKind)
    ensures
        r == model_kind_of(model_str@),
{
    if str_eq(model_str, "L6") {
        ModelKind::L6
    } else {
        ModelKind::L12
    }
}

/// The number of fragments across a document sequence.
pub open spec fn fragment_total(docs: Seq<Document>) -> nat
    decreases docs.len(),
{
    if docs.len() == 0 {
        0
    } else {
        fragment_total(docs.drop_last()) + docs.last().fragments@.len()
    }
}

/// The fragments of a document sequence, flattened in document order.
pub open spec fn flat_fragments(docs: Seq<Document>) -> Seq<DocumentFragment>
    decreases docs.len(),
{
    if docs.len() == 0 {
        Seq::empty()
    } else {
        flat_fragments(docs.drop_last()) + docs.last().fragments@
    }
}

proof fn lemma_flat_len(docs: Seq<Document>)
    ensures
        flat_fragments(docs).len() == fragment_total(docs),
    decreases docs.len(),
{
    if docs.len() > 0 {
        lemma_flat_len(docs.drop_last());
    }
}

proof fn lemma_fragment_total_split(docs: Seq<Document>, i: int)
    requires
        0 <= i <= docs.len(),
    ensures
        fragment_total(docs) == fragment_total(docs.take(i)) + fragment_total(docs.skip(i)),
    decreases docs.len() - i,
{
    if docs.len() == i {
        assert(docs.take(i) =~= docs);
        assert(docs.skip(i) =~= Seq::<Document>::empty());
    } else {
        let dl = docs.drop_last();
        lemma_fragment_total_split(dl, i);
        assert(dl.take(i) =~= docs.take(i));
        assert(docs.skip(i).drop_last() =~= dl.skip(i));
        assert(docs.skip(i).last() == docs.last());
        assert(fragment_total(docs.skip(i)) == fragment_total(dl.skip(i))
            + docs.last().fragments@.len());
    }
}

/// One model outcome fits: a vector of the worker's fixed dimension came
/// back.
pub open spec fn output_ok(o: Option<Vec<u32>>, dim: nat) -> bool {
    match o {
        Some(v) => v@.len() == dim,
        None => false,
    }
}

/// The vector of one model outcome.
pub open spec fn output_vec(o: Option<Vec<u32>>) -> Seq<u32> {
    match o {
        Some(v) => v@,
        None => Seq::empty(),
    }
}

/// The per-fragment model outcomes fit the request: one vector per fragment,
/// each of the worker's fixed dimension.
pub open spec fn outputs_good(docs: Seq<Document>, outputs: Seq<Option<Vec<u32>>>, dim: nat)
    -> bool {
    &&& outputs.len() == fragment_total(docs)
    &&& forall|k: int| 0 <= k < outputs.len() ==> output_ok(#[trigger] outputs[k], dim)
}

/// The embedded fragment carries exactly the fragment's fields and the
/// given vector.
pub open spec fn embedded_of(e: EmbeddedDocument, f: DocumentFragment, v: Seq<u32>) -> bool {
    &&& e.id@ == f.id@
    &&& e.document_id@ == f.document_id@
    &&& e.name@ == f.name@
    &&& e.text@ == f.text@
    &&& e.metadata@ == f.metadata@
    &&& e.embeddings@ == v
}

/// The embedded document set assembles the request's fragments, in input
/// order, each with its model output.
pub open spec fn assembled(docs: Documents, outputs: Seq<Option<Vec<u32>>>, eds: EmbeddedDocuments)
    -> bool {
    &&& eds.collection@ == docs.collection@
    &&& eds.metadata@ == docs.metadata@
    &&& eds.documents@.len() == fragment_total(docs.documents@)
    &&& forall|k: int|
        0 <= k < eds.documents@.len() ==> embedded_of(
            #[trigger] eds.documents@[k],
            flat_fragments(docs.documents@)[k],
            output_vec(outputs[k]),
        )
}

/// Assemble the embedded document set for one request from the model's
/// per-fragment outcomes, in input order. A missing or mis-sized vector is
/// fatal to the whole request: no partial set is returned.
pub fn encode_documents(documents: &Documents, outputs: Vec<Option<Vec<u32>>>, dim: usize) -> (r:
    Result<EmbeddedDocuments, Error>)
    ensures
        r is Ok <==> outputs_good(documents.documents@, outputs@, dim as nat),
        r matches Ok(eds) ==> assembled(*documents, outputs@, eds),
        r matches Err(e) ==> e is Embedding,
{
    let ghost outputs0 = outputs@;
    let ghost all_docs = documents.documents@;
    let mut rest = outputs;
    let total_out = rest.len();
    let mut out: Vec<EmbeddedDocument> = Vec::new();
    let mut k: usize = 0;
    let n = documents.documents.len();
    let mut i: usize = 0;
    proof {
        assert(all_docs.take(0) =~= Seq::<Document>::empty());
        assert(outputs0.skip(0) =~= outputs0);
    }
    while i < n
        invariant
            i <= n,
            n == all_docs.len(),
            all_docs == documents.documents@,
            outputs0 == outputs@,
            total_out == outputs0.len(),
            k as nat == fragment_total(all_docs.take(i as int)),
            k as nat == flat_fragments(all_docs.take(i as int)).len(),
            k <= outputs0.len(),
            rest@ == outputs0.skip(k as int),
            out@.len() == k,
            forall|t: int|
                0 <= t < k ==> output_ok(#[trigger] outputs0[t], dim as nat) && embedded_of(
                    out@[t],
                    flat_fragments(all_docs.take(i as int))[t],
                    output_vec(outputs0[t]),
                ),
        decreases n - i,
    {
        let doc = &documents.documents[i];
        let ghost flat_before = flat_fragments(all_docs.take(i as int));
        let m = doc.fragments.len();
        let mut j: usize = 0;
        proof {
            assert(doc.fragments@.take(0) =~= Seq::<DocumentFragment>::empty());
            lemma_fragment_total_split(all_docs, i + 1 as int);
            assert(all_docs.take(i + 1 as int).drop_last() =~= all_docs.take(i as int));
            assert(all_docs.take(i + 1 as int).last() == all_docs[i as int]);
            lemma_flat_len(all_docs.take(i + 1 as int));
        }
        while j < m
            invariant
                j <= m,
                i < n,
                n == all_docs.len(),
                all_docs == documents.documents@,
                outputs0 == outputs@,
                total_out == outputs0.len(),
                m == doc.fragments@.len(),
                doc == &documents.documents[i as int],
                flat_before == flat_fragments(all_docs.take(i as int)),
                fragment_total(all_docs) >= fragment_total(all_docs.take(i as int))
                    + doc.fragments@.len(),
                k as nat == fragment_total(all_docs.take(i as int)) + j,
                k as nat == flat_before.len() + j,
                k <= outputs0.len(),
                rest@ == outputs0.skip(k as int),
                out@.len() == k,
                forall|t: int|
                    0 <= t < k ==> output_ok(#[trigger] outputs0[t], dim as nat) && embedded_of(
                        out@[t],
                        (flat_before + doc.fragments@.take(j as int))[t],
                        output_vec(outputs0[t]),
                    ),
            decreases m - j,
        {
            if rest.len() == 0 {
                proof {
                    assert(outputs0.len() == k);
                    assert(fragment_total(all_docs) > k as nat);
                }
                return Err(Error::Embedding("missing embedding for a fragment".to_owned()));
            }
            let o = rest.remove(0);
            proof {
                assert(o == outputs0[k as int]);
            }
            match o {
                Some(v) => {
                    if v.len() != dim {
                        proof {
                            assert(outputs0[k as int] matches Some(w) && w@.len() != dim);
                        }
                        return Err(
                            Error::Embedding("embedding dimension mismatch".to_owned()),
                        );
                    }
                    let e = doc.fragments[j].to_embedded(v);
                    out.push(e);
                },
                None => {
                    proof {
                        assert(outputs0[k as int] is None);
                    }
                    return Err(Error::Embedding("inference failed for a fragment".to_owned()));
                },
            }
            proof {
                assert(outputs0.skip(k as int).remove(0) =~= outputs0.skip(k + 1 as int));
                assert(doc.fragments@.take(j + 1 as int) =~= doc.fragments@.take(
                    j as int,
                ).push(doc.fragments@[j as int]));
                assert((flat_before + doc.fragments@.take(j + 1 as int)) =~= (flat_before
                    + doc.fragments@.take(j as int)).push(doc.fragments@[j as int]));
            }
            j += 1;
            k += 1;
        }
        proof {
            assert(doc.fragments@.take(m as int) =~= doc.fragments@);
            assert(flat_fragments(all_docs.take(i + 1 as int)) == flat_before + doc.fragments@);
        }
        i += 1;
    }
    proof {
        assert(all_docs.take(n as int) =~= all_docs);
    }
    if rest.len() != 0 {
        proof {
            assert(outputs0.len() > k);
        }
        return Err(Error::Embedding("more embeddings than fragments".to_owned()));
    }
    proof {
        assert(outputs0.len() == k);
    }
    let eds = documents.to_embedded(out);
    Ok(eds)
}

/// The request identifiers `0..n`, in submission order.
pub open spec fn ids_upto(n: nat) -> Seq<u64> {
    Seq::new(n, |i: int| i as u64)
}

/// Whether a model load outcome lets a worker start: the model resolved and
/// reported a positive embedding dimension.
pub open spec fn load_ok(load: Result<usize, String>) -> bool {
    match load {
        Ok(d) => d >= 1,
        Err(_) => false,
    }
}

/// The embedding dimension a load outcome reports.
pub open spec fn load_dim(load: Result<usize, String>) -> nat {
    match load {
        Ok(d) => d as nat,
        Err(_) => 0,
    }
}

/// The worker that owns the embedding model: a FIFO queue of submitted
/// requests and the log of completed ones. Requests are numbered in
/// submission order; the surrounding loop takes the head request, runs the
/// model once per fragment, and hands the outcomes to `process_next`.
pub struct Model {
    dim: usize,
    next_id: u64,
    pending: Vec<(u64, Documents)>,
    completed: Vec<u64>,
}

impl Model {
    /// The identifiers of the submitted, unprocessed requests, in
    /// submission order.
    pub closed spec fn pending_ids(&self) -> Seq<u64> {
        self.pending@.map_values(|p: (u64, Documents)| p.0)
    }

    /// The document sets of the submitted, unprocessed requests, in
    /// submission order.
    pub closed spec fn pending_docs(&self) -> Seq<Documents> {
        self.pending@.map_values(|p: (u64, Documents)| p.1)
    }

    /// The identifiers of the requests whose replies have been sent, in
    /// reply order.
    pub closed spec fn completed_ids(&self) -> Seq<u64> {
        self.completed@
    }

    /// The worker's fixed embedding dimension.
    pub closed spec fn dim_spec(&self) -> nat {
        self.dim as nat
    }

    /// The completed log followed by the pending queue is exactly the
    /// submission order: the queue is FIFO and replies are sent in
    /// submission order.
    pub closed spec fn wf(&self) -> bool {
        &&& self.completed@ + self.pending_ids() == ids_upto(self.next_id as nat)
        &&& self.dim >= 1
    }

    /// Start a worker from the outcome of loading the embedding model. An
    /// unresolvable model source is fatal: no worker value exists, so no
    /// submission can ever be accepted.
    pub fn spawn(load: Result<usize, String>) -> (r: Result<Model, Error>)
        ensures
            r is Ok <==> load_ok(load),
            r matches Ok(m) ==> m.wf() && m.dim_spec() == load_dim(load) && m.pending_ids()
                == Seq::<u64>::empty() && m.completed_ids() == Seq::<u64>::empty(),
            r matches Err(e) ==> e is ModelLoad,
    {
        match load {
            Ok(d) => {
                if d == 0 {
                    Err(Error::ModelLoad("model reported an empty embedding size".to_owned()))
                } else {
                    let m = Model {
                        dim: d,
                        next_id: 0,
                        pending: Vec::new(),
                        completed: Vec::new(),
                    };
                    proof {
                        assert(m.completed@ + m.pending_ids() =~= ids_upto(0));
                        assert(m.pending_ids() =~= Seq::<u64>::empty());
                    }
                    Ok(m)
                }
            },
            Err(msg) => Err(Error::ModelLoad(msg)),
        }
    }

    /// Enqueue one document set; the returned identifier names the request.
    /// Requests are numbered consecutively in submission order.
    pub fn submit(&mut self, documents: Documents) -> (id: u64)
        requires
            old(self).wf(),
            old(self).completed_ids().len() + old(self).pending_ids().len() < u64::MAX,
        ensures
            final(self).wf(),
            id == old(self).completed_ids().len() + old(self).pending_ids().len(),
            final(self).pending_ids() == old(self).pending_ids().push(id),
            final(self).pending_docs() == old(self).pending_docs().push(documents),
            final(self).completed_ids() == old(self).completed_ids(),
            final(self).dim_spec() == old(self).dim_spec(),
    {
        proof {
            assert((old(self).completed@ + old(self).pending_ids()).len() == ids_upto(
                old(self).next_id as nat,
            ).len());
        }
        let id = self.next_id;
        self.pending.push((id, documents));
        self.next_id = id + 1;
        proof {
            let pm = |p: (u64, Documents)| p.0;
            let pd = |p: (u64, Documents)| p.1;
            assert(self.pending@.map_values(pm) =~= old(self).pending@.map_values(pm).push(id));
            assert(self.pending@.map_values(pd) =~= old(self).pending@.map_values(pd).push(
                self.pending@.last().1,
            ));
            assert(ids_upto(self.next_id as nat) =~= ids_upto(old(self).next_id as nat).push(
                id,
            ));
            assert(self.completed@ + self.pending_ids() =~= (old(self).completed@ + old(
                self,
            ).pending_ids()).push(id));
        }
        id
    }

    /// Take the head request off the queue, assemble its reply from the
    /// model's per-fragment outcomes, and log the request as completed.
    /// A failed outcome is fatal to this request only.
    pub fn process_next(&mut self, outputs: Vec<Option<Vec<u32>>>) -> (r: (
        u64,
        Result<EmbeddedDocuments, Error>,
    ))
        requires
            old(self).wf(),
            old(self).pending_ids().len() > 0,
        ensures
            final(self).wf(),
            r.0 == old(self).pending_ids()[0],
            final(self).pending_ids() == old(self).pending_ids().skip(1),
            final(self).pending_docs() == old(self).pending_docs().skip(1),
            final(self).completed_ids() == old(self).completed_ids().push(r.0),
            final(self).dim_spec() == old(self).dim_spec(),
            r.1 is Ok <==> outputs_good(
                old(self).pending_docs()[0].documents@,
                outputs@,
                old(self).dim_spec(),
            ),
            r.1 matches Ok(eds) ==> assembled(old(self).pending_docs()[0], outputs@, eds),
            r.1 matches Err(e) ==> e is Embedding,
    {
        let head = self.pending.remove(0);
        let id = head.0;
        let docs = head.1;
        let result = encode_documents(&docs, outputs, self.dim);
        self.completed.push(id);
        proof {
            let pm = |p: (u64, Documents)| p.0;
            let pd = |p: (u64, Documents)| p.1;
            assert(old(self).pending@.remove(0) =~= old(self).pending@.skip(1));
            assert(self.pending@.map_values(pm) =~= old(self).pending@.map_values(pm).skip(1));
            assert(self.pending@.map_values(pd) =~= old(self).pending@.map_values(pd).skip(1));
            assert(docs == old(self).pending_docs()[0]);
            assert(id == old(self).pending_ids()[0]);
            assert(self.completed@ + self.pending_ids() =~= old(self).completed@ + old(
                self,
            ).pending_ids());
        }
        (id, result)
    }
}

proof fn lemma_completed_identity(m: Model)
    requires
        m.wf(),
    ensures
        forall|i: int| 0 <= i < m.completed_ids().len() ==> m.completed_ids()[i] == i as u64,
{
    let pm = m.pending_ids();
    let n = m.completed_ids().len() as int;
    let total = ids_upto(m.next_id as nat);
    assert(total.len() == m.next_id as nat);
    assert((m.completed@ + pm).len() == m.completed@.len() + pm.len());
    assert forall|i: int| 0 <= i < n implies m.completed_ids()[i] == i as u64 by {
        assert((m.completed@ + pm)[i] == m.completed@[i]);
        assert(0 <= i < m.next_id as nat);
        assert(total[i] == i as u64);
    }
}

/// Replies leave the worker in submission order: if request `a` was
/// submitted before request `b` and `b`'s reply has been sent, then `a`'s
/// reply was sent first. A later submission can never overtake an earlier
/// one.
pub proof fn lemma_fifo_replies(m: Model, a: u64, b: u64)
    requires
        m.wf(),
        a < b,
        m.completed_ids().contains(b),
    ensures
        m.completed_ids().contains(a),
        forall|i: int, j: int|
            0 <= i < m.completed_ids().len() && 0 <= j < m.completed_ids().len() && #[trigger] m.completed_ids()[i]
                == a && #[trigger] m.completed_ids()[j] == b ==> i < j,
{
    lemma_completed_identity(m);
    let c = m.completed_ids();
    assert((m.completed@ + m.pending_ids()).len() == ids_upto(m.next_id as nat).len());
    assert(c.len() <= m.next_id as nat);
    let j0 = choose|j: int| 0 <= j < c.len() && c[j] == b;
    assert(c[j0] == j0 as u64);
    assert(j0 == b as int);
    assert(c[a as int] == a);
    assert forall|i: int, j: int|
        0 <= i < c.len() && 0 <= j < c.len() && #[trigger] c[i] == a && #[trigger] c[j]
            == b implies i < j by {
        assert(c[i] == i as u64);
        assert(c[j] == j as u64);
        assert(i == a as int);
        assert(j == b as int);
    }
}

} // verus!
