//! The evaluator: the clue that a guess earns against a secret word.

use std::collections::HashMap;
use vstd::prelude::*;

verus! {

broadcast use vstd::std_specs::hash::group_hash_axioms;

/// What one position of a guess learns about the secret.
#[derive(Clone, Copy, Debug, PartialEq, Eq, Structural)]
pub enum Mark {
    /// The letter stands at this very position of the secret.
    Exact,
    /// The letter stands elsewhere in the secret, at a position not yet claimed.
    Present,
    /// The letter claims nothing more in the secret.
    Absent,
}

/// Positions before `n` where the secret holds `c` and the guess does not match:
/// the copies of `c` in the secret that are left for other positions to claim.
pub open spec fn spare_in_secret(secret: Seq<char>, guess: Seq<char>, c: char, n: int) -> nat
    decreases n,
{
    if n <= 0 {
        0
    } else {
        spare_in_secret(secret, guess, c, n - 1) + if secret[n - 1] == c && guess[n - 1]
            != secret[n - 1] {
            1nat
        } else {
            0nat
        }
    }
}

/// Positions before `n` where the guess holds `c` and does not match the secret.
pub open spec fn spare_in_guess(secret: Seq<char>, guess: Seq<char>, c: char, n: int) -> nat
    decreases n,
{
    if n <= 0 {
        0
    } else {
        spare_in_guess(secret, guess, c, n - 1) + if guess[n - 1] == c && guess[n - 1]
            != secret[n - 1] {
            1nat
        } else {
            0nat
        }
    }
}

/// The mark of position `i`: exact where the letters agree; otherwise present
/// while the unmatched copies of the letter in the secret outnumber the unmatched
/// copies of it earlier in the guess, absent after that.
pub open spec fn mark_at(secret: Seq<char>, guess: Seq<char>, i: int) -> Mark {
    if guess[i] == secret[i] {
        Mark::Exact
    } else if spare_in_guess(secret, guess, guess[i], i) < spare_in_secret(
        secret,
        guess,
        guess[i],
        secret.len() as int,
    ) {
        Mark::Present
    } else {
        Mark::Absent
    }
}

/// The copies of `c` in the secret that positions before `n` of the guess have
/// claimed without matching exactly.
pub open spec fn claimed(secret: Seq<char>, guess: Seq<char>, c: char, n: int) -> nat {
    let wanted = spare_in_guess(secret, guess, c, n);
    let offered = spare_in_secret(secret, guess, c, secret.len() as int);
    if wanted < offered {
        wanted
    } else {
        offered
    }
}

/// The clue of a guess against a secret of the same length, in guess order.
pub open spec fn clue_of(secret: Seq<char>, guess: Seq<char>) -> Seq<Mark> {
    Seq::new(guess.len(), |i: int| mark_at(secret, guess, i))
}

proof fn lemma_spare_in_secret_bound(secret: Seq<char>, guess: Seq<char>, c: char, n: int)
    requires
        0 <= n,
    ensures
        spare_in_secret(secret, guess, c, n) <= n,
    decreases n,
{
    if n > 0 {
        lemma_spare_in_secret_bound(secret, guess, c, n - 1);
    }
}

proof fn lemma_spare_without_letter(secret: Seq<char>, guess: Seq<char>, c: char, n: int)
    requires
        0 <= n <= secret.len(),
        forall|j: int| 0 <= j < n ==> secret[j] != c,
    ensures
        spare_in_secret(secret, guess, c, n) == 0,
    decreases n,
{
    if n > 0 {
        lemma_spare_without_letter(secret, guess, c, n - 1);
    }
}

/// The key under which the letter budget holds a letter.
pub open spec fn letter_key(c: char) -> u32 {
    c as u32
}

proof fn lemma_letter_key(c: char, d: char)
    ensures
        (letter_key(c) == letter_key(d)) == (c == d),
{
    assert(0 <= c as int <= 0x10FFFF);
    assert(0 <= d as int <= 0x10FFFF);
}

/// The characters of a string, in order.
fn chars_of(s: &str) -> (r: Vec<char>)
    ensures
        r@ == s@,
{
    let mut r: Vec<char> = Vec::new();
    for c in it: s.chars()
        invariant
            r@ == it.seq().take(it.index() as int),
            it.seq() == s@,
    {
        r.push(c);
    }
    assert(r@ =~= s@);
    r
}

/// The clue of `guess` against `secret`, position by position.
pub fn evaluate(secret: &str, guess: &str) -> (r: Vec<Mark>)
    requires
        secret@.len() == guess@.len(),
    ensures
        r@ == clue_of(secret@, guess@),
{
    let s = chars_of(secret);
    let g = chars_of(guess);
    let n = s.len();
    let ghost sv = s@;
    let ghost gv = g@;

    // Every letter of the secret gets a budget entry, at zero.
    let mut counts: HashMap<u32, usize> = HashMap::new();
    for i in 0..n
        invariant
            n == sv.len(),
            s@ == sv,
            forall|c: char|
                (#[trigger] counts@.contains_key(letter_key(c))) <==> exists|j: int|
                    0 <= j < i && sv[j] == c,
            forall|c: char| #[trigger] counts@.contains_key(letter_key(c)) ==> counts@[letter_key(c)] == 0,
    {
        let a = s[i];
        let ghost before = counts@;
        counts.insert(a as u32, 0);
        proof {
            assert(counts@ == before.insert(letter_key(a), 0usize));
            assert(sv[i as int] == a);
            assert forall|c: char|
                (#[trigger] counts@.contains_key(letter_key(c))) <==> exists|j: int|
                    0 <= j < i + 1 && sv[j] == c by {
                lemma_letter_key(c, a);
                if c == a {
                    assert(sv[i as int] == c);
                }
                if exists|j: int| 0 <= j < i + 1 && sv[j] == c {
                    let j = choose|j: int| 0 <= j < i + 1 && sv[j] == c;
                    if j < i {
                        assert(exists|j: int| 0 <= j < i && sv[j] == c);
                    }
                }
            }
        }
    }

    // Exact matches; each secret letter left unmatched adds one to its budget.
    let mut marks: Vec<Mark> = Vec::new();
    for i in 0..n
        invariant
            n == sv.len(),
            n == gv.len(),
            s@ == sv,
            g@ == gv,
            marks@.len() == i,
            forall|j: int|
                0 <= j < i ==> #[trigger] marks@[j] == if gv[j] == sv[j] {
                    Mark::Exact
                } else {
                    Mark::Absent
                },
            forall|c: char|
                (#[trigger] counts@.contains_key(letter_key(c))) <==> exists|j: int|
                    0 <= j < n && sv[j] == c,
            forall|c: char| #[trigger]
                counts@.contains_key(letter_key(c)) ==> counts@[letter_key(c)] == spare_in_secret(
                    sv,
                    gv,
                    c,
                    i as int,
                ),
    {
        let a = s[i];
        proof {
            assert(0 <= i < n && sv[i as int] == a);
            assert(exists|j: int| 0 <= j < n && sv[j] == a);
            assert(counts@.contains_key(letter_key(a)));
            assert(counts@[letter_key(a)] == spare_in_secret(sv, gv, a, i as int));
            lemma_spare_in_secret_bound(sv, gv, a, i as int);
        }
        let ghost before = counts@;
        if g[i] == a {
            marks.push(Mark::Exact);
        } else {
            marks.push(Mark::Absent);
            if let Some(v) = counts.get(&(a as u32)) {
                let next: usize = *v + 1;
                counts.insert(a as u32, next);
            }
        }
        proof {
            assert(gv[i as int] == g@[i as int]);
            if gv[i as int] == sv[i as int] {
                assert(counts@ == before);
            } else {
                assert(counts@ == before.insert(
                    letter_key(a),
                    (spare_in_secret(sv, gv, a, i as int) + 1) as usize,
                ));
            }
        }
        proof {
            assert forall|c: char| #[trigger]
                counts@.contains_key(letter_key(c)) implies counts@[letter_key(c)] == spare_in_secret(
                sv,
                gv,
                c,
                i + 1,
            ) by {
                lemma_letter_key(c, a);
                assert(before.contains_key(letter_key(c)));
                assert(before[letter_key(c)] == spare_in_secret(sv, gv, c, i as int));
                assert(spare_in_secret(sv, gv, c, i + 1) == spare_in_secret(sv, gv, c, i as int)
                    + if sv[i as int] == c && gv[i as int] != sv[i as int] {
                    1nat
                } else {
                    0nat
                });
            }
            assert forall|j: int| 0 <= j < i + 1 implies #[trigger] marks@[j] == if gv[j]
                == sv[j] {
                Mark::Exact
            } else {
                Mark::Absent
            } by {
                if j == i {
                    assert(gv[j] == g@[j]);
                }
            }
        }
    }
    proof {
        assert forall|c: char| !(#[trigger] counts@.contains_key(letter_key(c))) implies
            spare_in_secret(sv, gv, c, n as int) == 0 by {
            lemma_spare_without_letter(sv, gv, c, n as int);
        }
    }

    // The other positions claim from the budget, left to right.
    for i in 0..n
        invariant
            n == sv.len(),
            n == gv.len(),
            s@ == sv,
            g@ == gv,
            marks@.len() == n,
            forall|j: int| 0 <= j < i ==> #[trigger] marks@[j] == mark_at(sv, gv, j),
            forall|j: int|
                i <= j < n ==> #[trigger] marks@[j] == if gv[j] == sv[j] {
                    Mark::Exact
                } else {
                    Mark::Absent
                },
            forall|c: char|
                !(#[trigger] counts@.contains_key(letter_key(c))) ==> spare_in_secret(
                    sv,
                    gv,
                    c,
                    n as int,
                ) == 0,
            forall|c: char| #[trigger]
                counts@.contains_key(letter_key(c)) ==> counts@[letter_key(c)]
                    == spare_in_secret(sv, gv, c, n as int) - claimed(sv, gv, c, i as int),
    {
        let b = g[i];
        let ghost before = counts@;
        let ghost marks_before = marks@;
        if marks[i] == Mark::Absent {
            if let Some(v) = counts.get(&(b as u32)) {
                if *v > 0 {
                    marks.set(i, Mark::Present);
                    let next: usize = *v - 1;
                    counts.insert(b as u32, next);
                }
            }
        }
        proof {
            assert(gv[i as int] == b);
            assert(marks_before[i as int] == if gv[i as int] == sv[i as int] {
                Mark::Exact
            } else {
                Mark::Absent
            });
            assert forall|c: char| #[trigger]
                counts@.contains_key(letter_key(c)) implies counts@[letter_key(c)]
                == spare_in_secret(sv, gv, c, n as int) - claimed(sv, gv, c, i + 1) by {
                lemma_letter_key(c, b);
                assert(before.contains_key(letter_key(c)));
                assert(spare_in_guess(sv, gv, c, i + 1) == spare_in_guess(sv, gv, c, i as int)
                    + if gv[i as int] == c && gv[i as int] != sv[i as int] {
                    1nat
                } else {
                    0nat
                });
            }
            assert forall|c: char| !(#[trigger] counts@.contains_key(letter_key(c))) implies
                spare_in_secret(sv, gv, c, n as int) == 0 by {
                lemma_letter_key(c, b);
                assert(!before.contains_key(letter_key(c)));
            }
            assert forall|j: int| 0 <= j < i + 1 implies #[trigger] marks@[j] == mark_at(
                sv,
                gv,
                j,
            ) by {
                if j == i {
                    lemma_letter_key(b, b);
                    if !before.contains_key(letter_key(b)) {
                        assert(spare_in_secret(sv, gv, b, n as int) == 0);
                    }
                }
            }
        }
    }
    assert(marks@ =~= clue_of(sv, gv));
    marks
}

/// How many of the first `n` letters of `w` are `c`.
pub open spec fn occurrences_before(w: Seq<char>, c: char, n: int) -> nat
    decreases n,
{
    if n <= 0 {
        0
    } else {
        occurrences_before(w, c, n - 1) + if w[n - 1] == c {
            1nat
        } else {
            0nat
        }
    }
}

/// How many letters of `w` are `c`.
pub open spec fn occurrences(w: Seq<char>, c: char) -> nat {
    occurrences_before(w, c, w.len() as int)
}

/// Positions before `n` where the guess holds `c` and the clue marks it exact or present.
pub open spec fn credited_before(secret: Seq<char>, guess: Seq<char>, c: char, n: int) -> nat
    decreases n,
{
    if n <= 0 {
        0
    } else {
        credited_before(secret, guess, c, n - 1) + if guess[n - 1] == c && clue_of(
            secret,
            guess,
        )[n - 1] != Mark::Absent {
            1nat
        } else {
            0nat
        }
    }
}

/// Positions of the guess that hold `c` and that the clue marks exact or present.
pub open spec fn credited(secret: Seq<char>, guess: Seq<char>, c: char) -> nat {
    credited_before(secret, guess, c, guess.len() as int)
}

/// Positions before `n` where both words hold `c`.
spec fn shared_before(secret: Seq<char>, guess: Seq<char>, c: char, n: int) -> nat
    decreases n,
{
    if n <= 0 {
        0
    } else {
        shared_before(secret, guess, c, n - 1) + if guess[n - 1] == c && secret[n - 1] == c {
            1nat
        } else {
            0nat
        }
    }
}

proof fn lemma_credit_prefix(secret: Seq<char>, guess: Seq<char>, c: char, n: int)
    requires
        secret.len() == guess.len(),
        0 <= n <= guess.len(),
    ensures
        occurrences_before(secret, c, n) == shared_before(secret, guess, c, n) + spare_in_secret(
            secret,
            guess,
            c,
            n,
        ),
        occurrences_before(guess, c, n) == shared_before(secret, guess, c, n) + spare_in_guess(
            secret,
            guess,
            c,
            n,
        ),
        credited_before(secret, guess, c, n) == shared_before(secret, guess, c, n) + claimed(
            secret,
            guess,
            c,
            n,
        ),
    decreases n,
{
    if n > 0 {
        lemma_credit_prefix(secret, guess, c, n - 1);
        assert(clue_of(secret, guess)[n - 1] == mark_at(secret, guess, n - 1));
    }
}

/// For every letter, the clue marks exact or present as many positions holding it
/// as the smaller of its counts in the secret and in the guess, and no more.
pub proof fn law_letter_credit(secret: Seq<char>, guess: Seq<char>, c: char)
    requires
        secret.len() == guess.len(),
    ensures
        credited(secret, guess, c) == if occurrences(secret, c) < occurrences(guess, c) {
            occurrences(secret, c)
        } else {
            occurrences(guess, c)
        },
{
    lemma_credit_prefix(secret, guess, c, guess.len() as int);
}

/// A guess equal to the secret is exact everywhere.
pub proof fn law_self_all_exact(secret: Seq<char>)
    ensures
        clue_of(secret, secret) == Seq::new(secret.len(), |i: int| Mark::Exact),
{
    assert(clue_of(secret, secret) =~= Seq::new(secret.len(), |i: int| Mark::Exact));
}

/// A guess that shares no letter with the secret is absent everywhere.
pub proof fn law_disjoint_all_absent(secret: Seq<char>, guess: Seq<char>)
    requires
        secret.len() == guess.len(),
        forall|i: int, j: int|
            0 <= i < guess.len() && 0 <= j < secret.len() ==> guess[i] != secret[j],
    ensures
        clue_of(secret, guess) == Seq::new(guess.len(), |i: int| Mark::Absent),
{
    assert forall|i: int| 0 <= i < guess.len() implies mark_at(secret, guess, i)
        == Mark::Absent by {
        lemma_spare_without_letter(secret, guess, guess[i], secret.len() as int);
    }
    assert(clue_of(secret, guess) =~= Seq::new(guess.len(), |i: int| Mark::Absent));
}

} // verus!
