//! Fragment construction: whitespace tokenization of a document's text and
//! greedy packing of tokens into fragments under a token budget.

use vstd::prelude::*;

use crate::settings::SettingVal;
use crate::settings::Settings;

verus! {

/// Hard ceiling on the fragment token budget; larger fragments could be
/// truncated by the encoding model downstream.
pub const MAX_TOKENS: usize = 256;

/// The token budget actually used by the fragmenter: a caller-supplied
/// value of zero or above the hard ceiling is replaced by the ceiling.
pub open spec fn effective_budget(max_tokens: usize) -> usize {
    if max_tokens == 0 || max_tokens > MAX_TOKENS {
        MAX_TOKENS
    } else {
        max_tokens
    }
}

/// Clamp a caller-supplied token budget to the hard ceiling.
pub fn clamp_budget(max_tokens: usize) -> (r: usize)
    ensures
        r == effective_budget(max_tokens),
        1 <= r <= MAX_TOKENS,
{
    if max_tokens == 0 || max_tokens > MAX_TOKENS {
        MAX_TOKENS
    } else {
        max_tokens
    }
}

/// The fragment texts of a document under a token budget: the whitespace
/// tokens of the text, packed greedily under the clamped budget.
pub open spec fn fragments_of(text: Seq<char>, max_tokens: usize) -> Seq<Seq<char>> {
    chunks_of(tokens_of(text), effective_budget(max_tokens) as nat)
}

/// A token is a maximal run of non-space characters: non-empty and space-free.
pub open spec fn token_wf(t: Seq<char>) -> bool {
    t.len() > 0 && (forall|k: int| 0 <= k < t.len() ==> t[k] != ' ')
}

/// Every token of the sequence is well-formed.
pub open spec fn tokens_wf(ts: Seq<Seq<char>>) -> bool {
    forall|j: int| 0 <= j < ts.len() ==> token_wf(#[trigger] ts[j])
}

/// The whitespace tokenization of a text: its maximal runs of non-space
/// characters, in order.
pub open spec fn tokens_of(s: Seq<char>) -> Seq<Seq<char>>
    decreases s.len(),
{
    if s.len() == 0 {
        Seq::empty()
    } else {
        let fr = s.drop_last();
        let c = s.last();
        if c == ' ' {
            tokens_of(fr)
        } else if fr.len() > 0 && fr.last() != ' ' {
            let ts = tokens_of(fr);
            ts.update(ts.len() - 1, ts.last().push(c))
        } else {
            tokens_of(fr).push(seq![c])
        }
    }
}

/// Joining a sequence of texts with a single space between neighbours.
pub open spec fn space_join(ts: Seq<Seq<char>>) -> Seq<char>
    decreases ts.len(),
{
    if ts.len() == 0 {
        Seq::empty()
    } else if ts.len() == 1 {
        ts[0]
    } else {
        space_join(ts.drop_last()) + seq![' '] + ts.last()
    }
}

/// Greedy packing of a token sequence into fragments: every fragment except
/// possibly the last holds exactly `m` tokens, joined with single spaces.
pub open spec fn chunks_of(ts: Seq<Seq<char>>, m: nat) -> Seq<Seq<char>>
    decreases ts.len(),
{
    if m < 1 || ts.len() == 0 {
        Seq::empty()
    } else if ts.len() <= m {
        seq![space_join(ts)]
    } else {
        seq![space_join(ts.take(m as int))] + chunks_of(ts.skip(m as int), m)
    }
}

/// A text that ends in a non-space character has at least one token.
pub proof fn lemma_tokens_of_nonempty(s: Seq<char>)
    requires
        s.len() > 0,
        s.last() != ' ',
    ensures
        tokens_of(s).len() > 0,
    decreases s.len(),
{
    let fr = s.drop_last();
    if fr.len() > 0 && fr.last() != ' ' {
        lemma_tokens_of_nonempty(fr);
    }
}

/// Every token produced by `tokens_of` is non-empty and space-free.
pub proof fn lemma_tokens_of_wf(s: Seq<char>)
    ensures
        tokens_wf(tokens_of(s)),
    decreases s.len(),
{
    if s.len() == 0 {
    } else {
        let fr = s.drop_last();
        let c = s.last();
        lemma_tokens_of_wf(fr);
        if c == ' ' {
        } else if fr.len() > 0 && fr.last() != ' ' {
            lemma_tokens_of_nonempty(fr);
            let ts = tokens_of(fr);
            let t2 = ts.update(ts.len() - 1, ts.last().push(c));
            assert forall|j: int| 0 <= j < t2.len() implies token_wf(#[trigger] t2[j]) by {
                if j == ts.len() - 1 {
                    assert(token_wf(ts[j]));
                    assert(t2[j] == ts.last().push(c));
                } else {
                    assert(token_wf(ts[j]));
                }
            }
        } else {
            let t2 = tokens_of(fr).push(seq![c]);
            assert forall|j: int| 0 <= j < t2.len() implies token_wf(#[trigger] t2[j]) by {
                if j == t2.len() - 1 {
                    assert(t2[j] == seq![c]);
                } else {
                    assert(token_wf(tokens_of(fr)[j]));
                }
            }
        }
    }
}

/// A single well-formed token is its own whitespace tokenization.
proof fn lemma_tokens_of_single_token(t: Seq<char>)
    requires
        token_wf(t),
    ensures
        tokens_of(t) == seq![t],
    decreases t.len(),
{
    if t.len() == 1 {
        assert(t.drop_last().len() == 0);
        assert(tokens_of(t.drop_last()) == Seq::<Seq<char>>::empty());
        assert(seq![t.last()] =~= t);
        assert(tokens_of(t) =~= seq![t]);
    } else {
        let fr = t.drop_last();
        lemma_tokens_of_single_token(fr);
        assert(fr.last() == t[t.len() - 2]);
        assert(fr.last() != ' ');
        let ts = tokens_of(fr);
        assert(ts == seq![fr]);
        assert(fr.push(t.last()) =~= t);
        assert(ts.update(0, fr.push(t.last())) =~= seq![t]);
    }
}

/// Appending a space and one more token to a text extends its tokenization
/// by exactly that token.
proof fn lemma_tokens_append_token(p: Seq<char>, t: Seq<char>)
    requires
        token_wf(t),
    ensures
        tokens_of(p + seq![' '] + t) == tokens_of(p).push(t),
    decreases t.len(),
{
    let s = p + seq![' '] + t;
    if t.len() == 1 {
        assert(s.last() == t[0]);
        assert(s.drop_last() =~= p + seq![' ']);
        let q = p + seq![' '];
        assert(q.last() == ' ');
        assert(q.drop_last() =~= p);
        assert(tokens_of(q) == tokens_of(p));
        assert(seq![s.last()] =~= t);
    } else {
        let fr = s.drop_last();
        assert(fr =~= p + seq![' '] + t.drop_last());
        lemma_tokens_append_token(p, t.drop_last());
        assert(fr.last() == t[t.len() - 2]);
        assert(fr.last() != ' ');
        let ts = tokens_of(fr);
        assert(ts == tokens_of(p).push(t.drop_last()));
        assert(ts.last() == t.drop_last());
        assert(t.drop_last().push(s.last()) =~= t);
        assert(ts.update(ts.len() - 1, t) =~= tokens_of(p).push(t));
    }
}

/// Tokenizing the space-joined form of well-formed tokens gives the tokens
/// back.
pub proof fn lemma_tokens_of_join(ts: Seq<Seq<char>>)
    requires
        tokens_wf(ts),
    ensures
        tokens_of(space_join(ts)) == ts,
    decreases ts.len(),
{
    if ts.len() == 0 {
        assert(tokens_of(space_join(ts)) =~= ts);
    } else if ts.len() == 1 {
        lemma_tokens_of_single_token(ts[0]);
        assert(seq![ts[0]] =~= ts);
    } else {
        lemma_tokens_of_join(ts.drop_last());
        lemma_tokens_append_token(space_join(ts.drop_last()), ts.last());
        assert(ts.drop_last().push(ts.last()) =~= ts);
    }
}

/// Space-joining distributes over concatenation of non-empty sequences.
proof fn lemma_space_join_concat(a: Seq<Seq<char>>, b: Seq<Seq<char>>)
    requires
        a.len() > 0,
        b.len() > 0,
    ensures
        space_join(a + b) == space_join(a) + seq![' '] + space_join(b),
    decreases b.len(),
{
    let s = a + b;
    if b.len() == 1 {
        assert(s.drop_last() =~= a);
        assert(s.last() == b[0]);
        assert(space_join(b) == b[0]);
    } else {
        assert(s.drop_last() =~= a + b.drop_last());
        lemma_space_join_concat(a, b.drop_last());
        assert(s.last() == b.last());
        assert(space_join(a) + seq![' '] + space_join(b.drop_last()) + seq![' '] + b.last()
            =~= space_join(a) + seq![' '] + (space_join(b.drop_last()) + seq![' '] + b.last()));
    }
}

/// Space-joining the greedy chunks of a token sequence gives the same text
/// as space-joining the tokens themselves.
pub proof fn lemma_space_join_chunks(ts: Seq<Seq<char>>, m: nat)
    requires
        m >= 1,
    ensures
        space_join(chunks_of(ts, m)) == space_join(ts),
    decreases ts.len(),
{
    if ts.len() == 0 {
    } else if ts.len() <= m {
    } else {
        let head = seq![space_join(ts.take(m as int))];
        let tail = chunks_of(ts.skip(m as int), m);
        lemma_space_join_chunks(ts.skip(m as int), m);
        assert(ts.skip(m as int).len() > 0);
        assert(tail.len() > 0);
        lemma_space_join_concat(head, tail);
        assert(space_join(head) == head[0]);
        lemma_space_join_concat(ts.take(m as int), ts.skip(m as int));
        assert(ts.take(m as int) + ts.skip(m as int) =~= ts);
    }
}

/// Rejoining the fragmenter's output fragments with single spaces reproduces
/// the whitespace tokenization of the input text exactly, for every text and
/// every token budget.
pub proof fn lemma_fragments_rejoin(text: Seq<char>, max_tokens: usize)
    ensures
        tokens_of(space_join(fragments_of(text, max_tokens))) == tokens_of(text),
{
    let ts = tokens_of(text);
    let m = effective_budget(max_tokens) as nat;
    lemma_tokens_of_wf(text);
    lemma_space_join_chunks(ts, m);
    lemma_tokens_of_join(ts);
}

/// Split a text into its whitespace tokens, as slices of the input.
pub fn tokenizer<'a>(text: &'a str) -> (r: Vec<&'a str>)
    ensures
        r@.map_values(|t: &str| t@) == tokens_of(text@),
        tokens_wf(r@.map_values(|t: &str| t@)),
{
    let n = text.unicode_len();
    let mut res: Vec<&'a str> = Vec::new();
    let mut i: usize = 0;
    let mut start: usize = 0;
    let mut in_run: bool = false;
    while i < n
        invariant
            n == text@.len(),
            i <= n,
            in_run ==> start < i,
            in_run ==> text@[i - 1] != ' ',
            in_run ==> res@.map_values(|t: &str| t@).push(
                text@.subrange(start as int, i as int),
            ) == tokens_of(text@.take(i as int)),
            !in_run ==> res@.map_values(|t: &str| t@) == tokens_of(text@.take(i as int)),
            !in_run ==> i == 0 || text@[i - 1] == ' ',
        decreases n - i,
    {
        let c = text.get_char(i);
        proof {
            assert(text@.take(i + 1 as int).drop_last() =~= text@.take(i as int));
            assert(text@.take(i + 1 as int).last() == text@[i as int]);
        }
        if c == ' ' {
            if in_run {
                let tok = text.substring_char(start, i);
                res.push(tok);
                in_run = false;
                proof {
                    assert(res@.map_values(|t: &str| t@) =~= res@.drop_last().map_values(
                        |t: &str| t@,
                    ).push(tok@));
                }
            }
            assert(tokens_of(text@.take(i + 1 as int)) == tokens_of(text@.take(i as int)));
        } else {
            if !in_run {
                start = i;
                in_run = true;
                assert(tokens_of(text@.take(i + 1 as int)) == tokens_of(
                    text@.take(i as int),
                ).push(seq![text@[i as int]]));
                assert(text@.subrange(start as int, i + 1 as int) =~= seq![text@[i as int]]);
            } else {
                proof {
                    let p = text@.take(i as int);
                    let ts = tokens_of(p);
                    let run = text@.subrange(start as int, i as int);
                    let m = res@.map_values(|t: &str| t@);
                    assert(ts == m.push(run));
                    assert(ts.len() == m.len() + 1);
                    assert(ts.last() == run);
                    assert(tokens_of(text@.take(i + 1 as int)) == ts.update(
                        ts.len() - 1,
                        ts.last().push(text@[i as int]),
                    ));
                    assert(ts.update(ts.len() - 1, run.push(text@[i as int])) =~= m.push(
                        run.push(text@[i as int]),
                    ));
                    assert(text@.subrange(start as int, i + 1 as int) =~= run.push(
                        text@[i as int],
                    ));
                }
            }
        }
        i += 1;
    }
    if in_run {
        let tok = text.substring_char(start, n);
        res.push(tok);
        proof {
            assert(res@.map_values(|t: &str| t@) =~= res@.drop_last().map_values(
                |t: &str| t@,
            ).push(tok@));
        }
    }
    proof {
        assert(text@.take(n as int) =~= text@);
        lemma_tokens_of_wf(text@);
    }
    res
}

/// Split a text into fragments: accumulate whitespace tokens greedily and
/// close a fragment when the clamped budget is reached or the tokens are
/// exhausted; tokens inside a fragment are rejoined with single spaces.
pub fn fragment(text: &str, max_tokens: usize) -> (r: Vec<String>)
    ensures
        r@.map_values(|s: String| s@) == fragments_of(text@, max_tokens),
{
    let toks = tokenizer(text);
    let m = clamp_budget(max_tokens);
    let ghost tseq = toks@.map_values(|t: &str| t@);
    let n = toks.len();
    let mut frags: Vec<String> = Vec::new();
    let mut j: usize = 0;
    proof {
        assert(tseq.skip(0) =~= tseq);
        assert(frags@.map_values(|s: String| s@) + chunks_of(tseq, m as nat) =~= chunks_of(
            tseq,
            m as nat,
        ));
    }
    while j < n
        invariant
            1 <= m,
            n == toks@.len(),
            j <= n,
            tseq == toks@.map_values(|t: &str| t@),
            chunks_of(tseq, m as nat) == frags@.map_values(|s: String| s@) + chunks_of(
                tseq.skip(j as int),
                m as nat,
            ),
        decreases n - j,
    {
        let k = if n - j < m {
            n - j
        } else {
            m
        };
        let mut acc = String::new();
        let mut idx: usize = 0;
        proof {
            assert(tseq.subrange(j as int, j as int) =~= Seq::<Seq<char>>::empty());
        }
        while idx < k
            invariant
                idx <= k,
                j + k <= n,
                n == toks@.len(),
                tseq == toks@.map_values(|t: &str| t@),
                acc@ == space_join(tseq.subrange(j as int, j + idx)),
            decreases k - idx,
        {
            proof {
                reveal_strlit(" ");
                assert(tseq.subrange(j as int, j + idx + 1).drop_last() =~= tseq.subrange(
                    j as int,
                    j + idx,
                ));
                assert(tseq.subrange(j as int, j + idx + 1).last() == tseq[j + idx]);
            }
            if idx > 0 {
                acc.append(" ");
            }
            acc.append(toks[j + idx]);
            proof {
                if idx == 0 {
                    assert(tseq.subrange(j as int, j + 1) =~= seq![tseq[j as int]]);
                }
            }
            idx += 1;
        }
        frags.push(acc);
        proof {
            assert(frags@.map_values(|s: String| s@) =~= frags@.drop_last().map_values(
                |s: String| s@,
            ).push(frags@.last()@));
            let rest = tseq.skip(j as int);
            if n - j <= m {
                assert(tseq.subrange(j as int, j + k) =~= rest);
                assert(tseq.skip(j + k) =~= Seq::<Seq<char>>::empty());
                assert(chunks_of(rest, m as nat) == seq![space_join(rest)]);
                assert(frags@.map_values(|s: String| s@) + chunks_of(tseq.skip(j + k), m as nat)
                    =~= frags@.drop_last().map_values(|s: String| s@) + chunks_of(
                    rest,
                    m as nat,
                ));
            } else {
                assert(tseq.subrange(j as int, j + k) =~= rest.take(m as int));
                assert(tseq.skip(j + k) =~= rest.skip(m as int));
                assert(chunks_of(rest, m as nat) == seq![space_join(rest.take(m as int))]
                    + chunks_of(rest.skip(m as int), m as nat));
                assert(frags@.map_values(|s: String| s@) + chunks_of(tseq.skip(j + k), m as nat)
                    =~= frags@.drop_last().map_values(|s: String| s@) + chunks_of(
                    rest,
                    m as nat,
                ));
            }
        }
        j += k;
    }
    proof {
        assert(tseq.skip(n as int) =~= Seq::<Seq<char>>::empty());
        assert(frags@.map_values(|s: String| s@) + Seq::<Seq<char>>::empty() =~= frags@.map_values(
            |s: String| s@,
        ));
    }
    frags
}

/// The fragment budget the settings ask for, clamped to the hard ceiling:
/// an absent, non-numeric, non-positive or too-large value means the
/// ceiling.
pub open spec fn settings_budget(m: Map<Seq<char>, SettingVal>) -> usize {
    if m.contains_key("database.max_tokens"@) {
        match m["database.max_tokens"@] {
            SettingVal::Int(x) => if 0 < x <= MAX_TOKENS as int {
                x as usize
            } else {
                MAX_TOKENS
            },
            _ => MAX_TOKENS,
        }
    } else {
        MAX_TOKENS
    }
}

/// Split a document's text into fragments under the budget the settings
/// ask for.
pub fn create_fragments_from_text(document: String, settings: &Settings) -> (r: Vec<String>)
    requires
        settings.wf(),
    ensures
        r@.map_values(|s: String| s@) == fragments_of(document@, settings_budget(settings@)),
{
    let mut max_tokens: usize = 0;
    match settings.get_int("database.max_tokens") {
        Some(x) => {
            if 0 < x && x <= MAX_TOKENS as i64 {
                max_tokens = x as usize;
            }
        },
        None => {},
    }
    let r = fragment(document.as_str(), max_tokens);
    proof {
        assert(effective_budget(max_tokens) == effective_budget(settings_budget(settings@)));
    }
    r
}

} // verus!
