//! Identifier derivation: document identifiers from a name-derived UUID and
//! fragment identifiers `{document_id}_{index}`, with uniqueness proofs.

use vstd::prelude::*;

verus! {

/// The character for a single decimal digit.
pub open spec fn dec_digit(d: nat) -> char {
    if d == 0 {
        '0'
    } else if d == 1 {
        '1'
    } else if d == 2 {
        '2'
    } else if d == 3 {
        '3'
    } else if d == 4 {
        '4'
    } else if d == 5 {
        '5'
    } else if d == 6 {
        '6'
    } else if d == 7 {
        '7'
    } else if d == 8 {
        '8'
    } else {
        '9'
    }
}

/// The decimal representation of a natural number, without leading zeros.
pub open spec fn dec_str(n: nat) -> Seq<char>
    decreases n,
{
    if n < 10 {
        seq![dec_digit(n)]
    } else {
        dec_str(n / 10).push(dec_digit(n % 10))
    }
}

proof fn lemma_dec_str_len(n: nat)
    ensures
        dec_str(n).len() >= 1,
        n >= 10 ==> dec_str(n).len() >= 2,
    decreases n,
{
    if n >= 10 {
        lemma_dec_str_len(n / 10);
    }
}

/// Distinct numbers have distinct decimal representations.
proof fn lemma_dec_str_injective(m: nat, n: nat)
    requires
        dec_str(m) == dec_str(n),
    ensures
        m == n,
    decreases m,
{
    lemma_dec_str_len(m);
    lemma_dec_str_len(n);
    if m < 10 && n < 10 {
        assert(dec_str(m)[0] == dec_digit(m));
        assert(dec_str(n)[0] == dec_digit(n));
    } else if m >= 10 && n >= 10 {
        let a = dec_str(m / 10);
        let b = dec_str(n / 10);
        assert(a.push(dec_digit(m % 10)) == b.push(dec_digit(n % 10)));
        assert(a.len() == b.len());
        assert(a =~= b) by {
            assert(forall|i: int|
                0 <= i < a.len() ==> a[i] == a.push(dec_digit(m % 10))[i] && b[i] == b.push(
                    dec_digit(n % 10),
                )[i]);
        }
        assert(dec_digit(m % 10) == a.push(dec_digit(m % 10)).last());
        assert(dec_digit(n % 10) == b.push(dec_digit(n % 10)).last());
        lemma_dec_str_injective(m / 10, n / 10);
    }
}

/// The string for one decimal digit.
fn digit_str(d: usize) -> (r: &'static str)
    requires
        d < 10,
    ensures
        r@ == seq![dec_digit(d as nat)],
{
    proof {
        reveal_strlit("0");
        reveal_strlit("1");
        reveal_strlit("2");
        reveal_strlit("3");
        reveal_strlit("4");
        reveal_strlit("5");
        reveal_strlit("6");
        reveal_strlit("7");
        reveal_strlit("8");
        reveal_strlit("9");
        assert(("0")@ =~= seq!['0']);
        assert(("1")@ =~= seq!['1']);
        assert(("2")@ =~= seq!['2']);
        assert(("3")@ =~= seq!['3']);
        assert(("4")@ =~= seq!['4']);
        assert(("5")@ =~= seq!['5']);
        assert(("6")@ =~= seq!['6']);
        assert(("7")@ =~= seq!['7']);
        assert(("8")@ =~= seq!['8']);
        assert(("9")@ =~= seq!['9']);
    }
    if d == 0 {
        "0"
    } else if d == 1 {
        "1"
    } else if d == 2 {
        "2"
    } else if d == 3 {
        "3"
    } else if d == 4 {
        "4"
    } else if d == 5 {
        "5"
    } else if d == 6 {
        "6"
    } else if d == 7 {
        "7"
    } else if d == 8 {
        "8"
    } else {
        "9"
    }
}

/// Format a fragment index in decimal.
pub fn format_index(n: usize) -> (s: String)
    ensures
        s@ == dec_str(n as nat),
    decreases n,
{
    if n < 10 {
        String::from_str(digit_str(n))
    } else {
        let mut s = format_index(n / 10);
        s.append(digit_str(n % 10));
        proof {
            assert(dec_str((n as nat) / 10) + seq![dec_digit((n as nat) % 10)] =~= dec_str(
                (n as nat) / 10,
            ).push(dec_digit((n as nat) % 10)));
        }
        s
    }
}

/// A fragment's identifier: the parent document's identifier, an underscore,
/// and the fragment's ordinal position in decimal.
pub open spec fn fragment_id(doc_id: Seq<char>, index: nat) -> Seq<char> {
    doc_id + seq!['_'] + dec_str(index)
}

/// Derive a fragment identifier from the parent document identifier and the
/// fragment's ordinal position.
pub fn make_fragment_id(doc_id: &str, index: usize) -> (r: String)
    ensures
        r@ == fragment_id(doc_id@, index as nat),
{
    let mut s = String::from_str(doc_id);
    proof {
        reveal_strlit("_");
        assert(("_")@ =~= seq!['_']);
    }
    s.append("_");
    let idx = format_index(index);
    s.append(idx.as_str());
    s
}

/// Fragment identifiers are unique within a document: two fragments of the
/// same document with distinct ordinal positions have distinct identifiers.
/// They are also stable: `fragment_id` is a function of the document
/// identifier and the position alone, so re-running fragmentation on
/// unchanged input yields identical identifiers.
pub proof fn lemma_fragment_ids_unique(doc_id: Seq<char>, i: nat, j: nat)
    requires
        fragment_id(doc_id, i) == fragment_id(doc_id, j),
    ensures
        i == j,
{
    let a = fragment_id(doc_id, i);
    let b = fragment_id(doc_id, j);
    let p = doc_id.len() + 1;
    assert(a.len() == p + dec_str(i).len());
    assert(b.len() == p + dec_str(j).len());
    assert(a.subrange(p as int, a.len() as int) =~= dec_str(i));
    assert(b.subrange(p as int, b.len() as int) =~= dec_str(j));
    lemma_dec_str_injective(i, j);
}

/// A name for the version-5 UUID (OID namespace) of a byte string: the
/// result is a pure function of the name alone.
pub uninterp spec fn uuid_v5_oid(name: Seq<char>) -> Seq<char>;

/// Relies on uuid::Uuid::new_v5 with the OID namespace: a version-5 UUID is
/// derived deterministically (SHA-1) from namespace and name alone, and its
/// default string form is the 36-character hyphenated encoding.
#[verifier::external_body]
pub(crate) fn uuid_v5_string(name: &str) -> (r: String)
    ensures
        r@ == uuid_v5_oid(name@),
        r@.len() == 36,
{
    uuid::Uuid::new_v5(&uuid::Uuid::NAMESPACE_OID, name.as_bytes()).to_string()
}

} // verus!
