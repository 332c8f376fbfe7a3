//! What is shown of the fortunes: the stored rows and one more, made up at
//! request time, in the order of their messages.

use vstd::prelude::*;
use vstd::multiset::Multiset;
use vstd::utf8::encode_utf8;
use crate::model::Fortune;

verus! {

/// Whether `a` comes no later than `b` when byte strings are ordered like
/// words in a dictionary: by the first byte in which they differ, and a
/// string before every longer one that starts with it.
pub open spec fn lex_le(a: Seq<u8>, b: Seq<u8>) -> bool
    decreases a.len(),
{
    if a.len() == 0 {
        true
    } else if b.len() == 0 {
        false
    } else if a[0] != b[0] {
        a[0] < b[0]
    } else {
        lex_le(a.skip(1), b.skip(1))
    }
}

/// The bytes a fortune is ordered by: its message as UTF-8.
pub open spec fn sort_key(fortune: Fortune) -> Seq<u8> {
    encode_utf8(fortune.message@)
}

/// Whether each fortune's message comes no later than those after it.
pub open spec fn ordered(fortunes: Seq<Fortune>) -> bool {
    forall|i: int, j: int|
        0 <= i <= j < fortunes.len() ==> lex_le(
            sort_key(#[trigger] fortunes[i]),
            sort_key(#[trigger] fortunes[j]),
        )
}

/// Whether `fortune` is the one added at request time.
pub open spec fn is_additional(fortune: Fortune) -> bool {
    fortune.id == 0 && fortune.message@ == "Additional fortune added at request time."@
}

/// Of two byte strings one comes no later than the other.
pub proof fn lemma_lex_le_total(a: Seq<u8>, b: Seq<u8>)
    ensures
        lex_le(a, b) || lex_le(b, a),
    decreases a.len(),
{
    if a.len() > 0 && b.len() > 0 && a[0] == b[0] {
        lemma_lex_le_total(a.skip(1), b.skip(1));
    }
}

/// The order carries over: `a` no later than `b` and `b` no later than `c`
/// put `a` no later than `c`.
pub proof fn lemma_lex_le_transitive(a: Seq<u8>, b: Seq<u8>, c: Seq<u8>)
    requires
        lex_le(a, b),
        lex_le(b, c),
    ensures
        lex_le(a, c),
    decreases a.len(),
{
    if a.len() > 0 && b.len() > 0 && c.len() > 0 && a[0] == b[0] && b[0] == c[0] {
        lemma_lex_le_transitive(a.skip(1), b.skip(1), c.skip(1));
    }
}

/// Compares two byte strings.
pub fn bytes_le(a: &[u8], b: &[u8]) -> (le: bool)
    ensures
        le == lex_le(a@, b@),
{
    let mut i: usize = 0;
    proof {
        assert(a@.skip(0) =~= a@);
        assert(b@.skip(0) =~= b@);
    }
    while i < a.len() && i < b.len()
        invariant
            i <= a@.len(),
            i <= b@.len(),
            lex_le(a@, b@) == lex_le(a@.skip(i as int), b@.skip(i as int)),
        decreases a@.len() - i,
    {
        proof {
            assert(a@.skip(i as int).skip(1) =~= a@.skip(i + 1));
            assert(b@.skip(i as int).skip(1) =~= b@.skip(i + 1));
        }
        if a[i] != b[i] {
            return a[i] < b[i];
        }
        i = i + 1;
    }
    i == a.len()
}

/// Whether the message of `a` comes no later than that of `b`.
pub fn message_le(a: &Fortune, b: &Fortune) -> (le: bool)
    ensures
        le == lex_le(sort_key(*a), sort_key(*b)),
{
    bytes_le(a.message.as_str().as_bytes(), b.message.as_str().as_bytes())
}

/// The fortune added at request time.
pub fn additional_fortune() -> (fortune: Fortune)
    ensures
        is_additional(fortune),
{
    Fortune { id: 0, message: "Additional fortune added at request time.".to_owned() }
}

/// The same fortunes in the order of their messages.
pub fn sort_by_message(fortunes: Vec<Fortune>) -> (sorted: Vec<Fortune>)
    ensures
        ordered(sorted@),
        sorted@.to_multiset() == fortunes@.to_multiset(),
{
    let mut rest = fortunes;
    let mut sorted: Vec<Fortune> = Vec::with_capacity(rest.len());
    proof {
        assert(sorted@.to_multiset() =~= Multiset::<Fortune>::empty()) by {
            sorted@.to_multiset_ensures();
        }
    }
    while rest.len() > 0
        invariant
            ordered(sorted@),
            sorted@.to_multiset().add(rest@.to_multiset()) == fortunes@.to_multiset(),
        decreases rest@.len(),
    {
        let ghost before = rest@;
        let ghost placed = sorted@;
        let taken: Option<Fortune> = rest.pop();
        match taken {
            None => {},
            Some(fortune) => {
                proof {
                    assert(before =~= rest@.push(fortune));
                }
                let mut at: usize = 0;
                while at < sorted.len() && message_le(&sorted[at], &fortune)
                    invariant
                        at <= sorted@.len(),
                        sorted@ == placed,
                        forall|k: int|
                            0 <= k < at ==> lex_le(sort_key(#[trigger] sorted@[k]), sort_key(fortune)),
                    decreases sorted@.len() - at,
                {
                    at = at + 1;
                }
                proof {
                    assert forall|k: int| at <= k < placed.len() implies lex_le(
                        sort_key(fortune),
                        sort_key(#[trigger] placed[k]),
                    ) by {
                        lemma_lex_le_total(sort_key(placed[at as int]), sort_key(fortune));
                        lemma_lex_le_transitive(
                            sort_key(fortune),
                            sort_key(placed[at as int]),
                            sort_key(placed[k]),
                        );
                    }
                    lemma_lex_le_total(sort_key(fortune), sort_key(fortune));
                }
                sorted.insert(at, fortune);
                proof {
                    let now = sorted@;
                    assert forall|i: int, j: int| 0 <= i <= j < now.len() implies lex_le(
                        sort_key(#[trigger] now[i]),
                        sort_key(#[trigger] now[j]),
                    ) by {
                        let pi = if i < at { i } else { i - 1 };
                        let pj = if j < at { j } else { j - 1 };
                        if i != at && j != at {
                            assert(now[i] == placed[pi] && now[j] == placed[pj]);
                        } else if i == at && j != at {
                            assert(now[j] == placed[pj]);
                        } else if i != at && j == at {
                            assert(now[i] == placed[pi]);
                        }
                    }
                    assert(now.to_multiset() =~= placed.to_multiset().insert(fortune)) by {
                        vstd::seq_lib::to_multiset_insert(placed, at as int, fortune);
                    }
                    assert(before.to_multiset() =~= rest@.to_multiset().insert(fortune)) by {
                        vstd::seq_lib::to_multiset_build(rest@, fortune);
                    }
                    assert(sorted@.to_multiset().add(rest@.to_multiset()) =~= placed.to_multiset().add(
                        before.to_multiset(),
                    ));
                }
            },
        }
    }
    proof {
        assert(rest@.to_multiset() =~= Multiset::<Fortune>::empty()) by {
            rest@.to_multiset_ensures();
        }
    }
    sorted
}

/// The fortunes as they are shown: the stored ones and the additional one,
/// in the order of their messages.
pub fn present(stored: Vec<Fortune>) -> (shown: Vec<Fortune>)
    ensures
        ordered(shown@),
        shown@.len() == stored@.len() + 1,
        exists|extra: Fortune|
            is_additional(extra) && #[trigger] stored@.to_multiset().insert(extra)
                == shown@.to_multiset(),
{
    broadcast use vstd::seq_lib::to_multiset_build;

    let mut all = stored;
    let extra = additional_fortune();
    all.push(extra);
    let ghost pushed = all@;
    let shown = sort_by_message(all);
    proof {
        let last = pushed[pushed.len() - 1];
        assert(pushed =~= stored@.push(last));
        shown@.to_multiset_ensures();
        pushed.to_multiset_ensures();
    }
    shown
}

} // verus!
