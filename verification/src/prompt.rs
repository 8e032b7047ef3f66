//! Assembling the prompt for the completion service from the preamble, the
//! retrieved passages and the user's question.

use vstd::prelude::*;
use vstd::string::*;
use crate::index::{Match, VectorIndex, is_ranking, ids_of, comparable, texts_at};
use crate::text::{occurs_in, lemma_occurs_between, lemma_occurs_widen};

verus! {

/// The first `n` passages, one per line, each after a dash.
pub open spec fn context_block(passages: Seq<Seq<char>>, n: int) -> Seq<char>
    decreases n,
{
    if n <= 0 {
        Seq::empty()
    } else {
        context_block(passages, n - 1) + "- "@ + passages[n - 1] + "\n"@
    }
}

/// The prompt: the preamble, the passages under a heading, the question.
pub open spec fn prompt_text(
    preamble: Seq<char>,
    passages: Seq<Seq<char>>,
    question: Seq<char>,
) -> Seq<char> {
    preamble + "\n\nContext:\n"@ + context_block(passages, passages.len() as int)
        + "\nQuestion: "@ + question
}

/// The texts of a sequence of matches, in order.
pub open spec fn texts_of(ms: Seq<Match>) -> Seq<Seq<char>> {
    Seq::new(ms.len(), |i: int| ms[i].text@)
}

/// Formats the preamble, the retrieved passages and the question into one
/// prompt.
pub fn compose_prompt(preamble: &str, passages: &Vec<Match>, question: &str) -> (r: String)
    ensures
        r@ == prompt_text(preamble@, texts_of(passages@), question@),
{
    let mut out: String = preamble.to_owned();
    out.append("\n\nContext:\n");
    let n: usize = passages.len();
    let mut i: usize = 0;
    while i < n
        invariant
            n == passages.len(),
            i <= n,
            out@ == preamble@ + "\n\nContext:\n"@ + context_block(texts_of(passages@), i as int),
        decreases n - i,
    {
        let ghost head = preamble@ + "\n\nContext:\n"@;
        let ghost block = context_block(texts_of(passages@), i as int);
        let ghost p = texts_of(passages@)[i as int];
        out.append("- ");
        out.append(passages[i].text.as_str());
        out.append("\n");
        assert(out@ =~= head + (block + "- "@ + p + "\n"@));
        i = i + 1;
    }
    let ghost body = out@;
    out.append("\nQuestion: ");
    out.append(question);
    assert(out@ =~= body + "\nQuestion: "@ + question@);
    out
}

/// Retrieves the `k` passages most similar to `q` and formats them, with
/// the preamble and the question, into the prompt for one turn.
pub fn retrieve_prompt(
    index: &VectorIndex,
    q: &Vec<i8>,
    k: usize,
    preamble: &str,
    question: &str,
) -> (r: String)
    requires
        index.wf(),
        comparable(index@, q@),
    ensures
        exists|ranking: Seq<int>| #[trigger]
            is_ranking(index@, q@, k as nat, ranking) && r@ == prompt_text(
                preamble@,
                texts_at(index@, ranking),
                question@,
            ),
{
    let found: Vec<Match> = index.query(q, k);
    proof {
        assert(texts_of(found@) =~= texts_at(index@, ids_of(found@)));
    }
    compose_prompt(preamble, &found, question)
}

/// The block of the first `n` passages holds each of them unbroken.
pub proof fn lemma_block_holds_passage(passages: Seq<Seq<char>>, n: int, i: int)
    requires
        0 <= i < n <= passages.len(),
    ensures
        occurs_in(context_block(passages, n), passages[i]),
    decreases n,
{
    let prev = context_block(passages, n - 1);
    let last = passages[n - 1];
    if i == n - 1 {
        lemma_occurs_between(prev + "- "@, last, "\n"@);
    } else {
        lemma_block_holds_passage(passages, n - 1, i);
        lemma_occurs_widen(Seq::empty(), prev, "- "@ + last + "\n"@, passages[i]);
        assert(Seq::<char>::empty() + prev + ("- "@ + last + "\n"@) =~= context_block(passages, n));
    }
}

/// The prompt holds every passage and the question, each unbroken.
pub proof fn lemma_prompt_holds_context(
    preamble: Seq<char>,
    passages: Seq<Seq<char>>,
    question: Seq<char>,
)
    ensures
        forall|i: int| 0 <= i < passages.len() ==> occurs_in(
            prompt_text(preamble, passages, question),
            #[trigger] passages[i],
        ),
        occurs_in(prompt_text(preamble, passages, question), question),
{
    let head = preamble + "\n\nContext:\n"@;
    let block = context_block(passages, passages.len() as int);
    let tail = "\nQuestion: "@ + question;
    let whole = prompt_text(preamble, passages, question);
    assert(whole =~= head + block + tail);
    assert forall|i: int| 0 <= i < passages.len() implies occurs_in(whole, #[trigger] passages[i]) by {
        lemma_block_holds_passage(passages, passages.len() as int, i);
        lemma_occurs_widen(head, block, tail, passages[i]);
    }
    lemma_occurs_between(head + block + "\nQuestion: "@, question, Seq::empty());
    assert(head + block + "\nQuestion: "@ + question + Seq::<char>::empty() =~= whole);
}

} // verus!
