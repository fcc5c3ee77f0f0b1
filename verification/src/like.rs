//! Patterns of the `LIKE` operator of SQL, with `\` before a character that stands for itself.

use vstd::prelude::*;

verus! {

/// Whether `c` has a meaning of its own in a pattern.
pub open spec fn is_special(c: char) -> bool {
    c == '\\' || c == '%' || c == '_'
}

/// The pattern that stands for the text `s` itself.
pub open spec fn escaped(s: Seq<char>) -> Seq<char>
    decreases s.len(),
{
    if s.len() == 0 {
        s
    } else if is_special(s[0]) {
        seq!['\\', s[0]] + escaped(s.skip(1))
    } else {
        seq![s[0]] + escaped(s.skip(1))
    }
}

/// The pattern that stands for the text `s` itself.
pub fn like_escape(s: &str) -> (r: String)
    ensures
        r@ == escaped(s@),
{
    let mut r: String = String::new();
    assert(s@.skip(0) =~= s@);
    for c in it: s.chars()
        invariant
            it.seq() == s@,
            r@ + escaped(s@.skip(it.index())) =~= escaped(s@),
    {
        let ghost rest = s@.skip(it.index());
        assert(rest.skip(1) =~= s@.skip(it.index() + 1));
        if c == '\\' || c == '%' || c == '_' {
            r.push('\\');
        }
        r.push(c);
    }
    r
}

/// The lower case of the ASCII letters; any other character stays.
pub open spec fn fold(c: char) -> char {
    if 'A' <= c <= 'Z' {
        (c as u32 + 32) as char
    } else {
        c
    }
}

/// Whether the text `t` matches the pattern `p`: `%` stands for any text, `_` for any character,
/// and ASCII letters for either case.
pub open spec fn like_matches(p: Seq<char>, t: Seq<char>) -> bool
    decreases p.len(), t.len(),
{
    if p.len() == 0 {
        t.len() == 0
    } else if p[0] == '%' {
        like_matches(p.skip(1), t) || (t.len() > 0 && like_matches(p, t.skip(1)))
    } else if p[0] == '_' {
        t.len() > 0 && like_matches(p.skip(1), t.skip(1))
    } else if p[0] == '\\' {
        p.len() > 1 && t.len() > 0 && fold(p[1]) == fold(t[0]) && like_matches(p.skip(2), t.skip(1))
    } else {
        t.len() > 0 && fold(p[0]) == fold(t[0]) && like_matches(p.skip(1), t.skip(1))
    }
}

/// Whether `s` begins at index `at` of `t`, either case of an ASCII letter counting as the other.
pub open spec fn occurs_at(s: Seq<char>, t: Seq<char>, at: int) -> bool {
    0 <= at && at + s.len() <= t.len() && forall|j: int|
        0 <= j < s.len() ==> fold(#[trigger] s[j]) == fold(t[at + j])
}

/// Whether `s` is a part of `t`, either case of an ASCII letter counting as the other.
pub open spec fn occurs_in(s: Seq<char>, t: Seq<char>) -> bool {
    exists|at: int| #[trigger] occurs_at(s, t, at)
}

proof fn lemma_percent_matches_all(t: Seq<char>)
    ensures
        like_matches(seq!['%'], t),
    decreases t.len(),
{
    reveal_with_fuel(like_matches, 2);
    if t.len() > 0 {
        lemma_percent_matches_all(t.skip(1));
    }
}

proof fn lemma_escaped_matches_start(s: Seq<char>, t: Seq<char>)
    ensures
        like_matches(escaped(s) + seq!['%'], t) == occurs_at(s, t, 0),
    decreases s.len(),
{
    let p = escaped(s) + seq!['%'];
    if s.len() == 0 {
        assert(p =~= seq!['%']);
        lemma_percent_matches_all(t);
    } else {
        let q = escaped(s.skip(1)) + seq!['%'];
        if is_special(s[0]) {
            assert(p.skip(2) =~= q);
        } else {
            assert(p.skip(1) =~= q);
        }
        if t.len() > 0 {
            lemma_escaped_matches_start(s.skip(1), t.skip(1));
            if occurs_at(s, t, 0) {
                assert forall|j: int| 0 <= j < s.len() - 1 implies fold(#[trigger] s.skip(1)[j])
                    == fold(t.skip(1)[0 + j]) by {
                    assert(fold(s[j + 1]) == fold(t[0 + j + 1]));
                }
            }
            if fold(s[0]) == fold(t[0]) && occurs_at(s.skip(1), t.skip(1), 0) {
                assert forall|j: int| 0 <= j < s.len() implies fold(#[trigger] s[j]) == fold(
                    t[0 + j],
                ) by {
                    if j > 0 {
                        assert(fold(s.skip(1)[j - 1]) == fold(t.skip(1)[0 + (j - 1)]));
                    }
                }
            }
        }
    }
}

/// A text matches the escaped form of `s` between two percent signs exactly where `s` is a part
/// of it: no character of `s` acts as a wildcard.
pub proof fn law_escaped_pattern_finds_the_text(s: Seq<char>, t: Seq<char>)
    ensures
        like_matches(seq!['%'] + escaped(s) + seq!['%'], t) == occurs_in(s, t),
    decreases t.len(),
{
    let p = seq!['%'] + escaped(s) + seq!['%'];
    let q = escaped(s) + seq!['%'];
    assert(p.skip(1) =~= q);
    lemma_escaped_matches_start(s, t);
    if t.len() > 0 {
        law_escaped_pattern_finds_the_text(s, t.skip(1));
        assert forall|at: int| occurs_at(s, t.skip(1), at) implies #[trigger] occurs_at(
            s,
            t,
            at + 1,
        ) by {
            assert forall|j: int| 0 <= j < s.len() implies fold(#[trigger] s[j]) == fold(
                t[at + 1 + j],
            ) by {
                assert(t.skip(1)[at + j] == t[at + 1 + j]);
            }
        }
        if occurs_in(s, t.skip(1)) {
            let at = choose|at: int| occurs_at(s, t.skip(1), at);
            assert(occurs_at(s, t, at + 1));
        }
        if occurs_in(s, t) && !occurs_at(s, t, 0) {
            let at = choose|at: int| occurs_at(s, t, at);
            assert(occurs_at(s, t.skip(1), at - 1)) by {
                assert forall|j: int| 0 <= j < s.len() implies fold(#[trigger] s[j]) == fold(
                    t.skip(1)[at - 1 + j],
                ) by {
                    assert(t.skip(1)[at - 1 + j] == t[at + j]);
                }
            }
        }
    }
}

/// An escaped text is that of its characters one after the other: a percent sign, an underscore
/// and a backslash get a backslash before them, and no other character does.
pub proof fn law_escaping_goes_by_character(s: Seq<char>, c: char, t: Seq<char>)
    ensures
        escaped(Seq::empty()).len() == 0,
        escaped(s + seq![c] + t) == escaped(s) + (if c == '%' || c == '_' || c == '\\' {
            seq!['\\', c]
        } else {
            seq![c]
        }) + escaped(t),
    decreases s.len(),
{
    let all = s + seq![c] + t;
    let e = if c == '%' || c == '_' || c == '\\' {
        seq!['\\', c]
    } else {
        seq![c]
    };
    if s.len() == 0 {
        assert(all.skip(1) =~= t);
        assert(escaped(all) =~= escaped(s) + e + escaped(t));
    } else {
        law_escaping_goes_by_character(s.skip(1), c, t);
        assert(all.skip(1) =~= s.skip(1) + seq![c] + t);
        assert(escaped(all) =~= escaped(s) + e + escaped(t));
    }
}

/// Characters count as the same in a pattern where they are the same, or the two cases of one
/// letter of ASCII.
pub proof fn law_cases_of_ascii_letters_count_alike(c: char, d: char)
    ensures
        fold(c) == fold(d) <==> {
            ||| c == d
            ||| 65 <= c as int <= 90 && d as int == c as int + 32
            ||| 65 <= d as int <= 90 && c as int == d as int + 32
        },
{
}

/// How a pattern is read: nothing stands for nothing, `%` for any text, `_` for any one character,
/// `\` and a character for that one, and any other character for itself, the case of an ASCII
/// letter left open.
pub proof fn law_patterns_are_read_from_the_left(p: Seq<char>, c: char, t: Seq<char>)
    ensures
        like_matches(Seq::empty(), t) <==> t.len() == 0,
        like_matches(seq!['%'] + p, t) <==> exists|n: int|
            0 <= n <= t.len() && #[trigger] like_matches(p, t.skip(n)),
        like_matches(seq!['_'] + p, t) <==> t.len() > 0 && like_matches(p, t.skip(1)),
        like_matches(seq!['\\', c] + p, t) <==> t.len() > 0 && fold(c) == fold(t[0])
            && like_matches(p, t.skip(1)),
        c != '%' && c != '_' && c != '\\' ==> (like_matches(seq![c] + p, t) <==> t.len() > 0
            && fold(c) == fold(t[0]) && like_matches(p, t.skip(1))),
    decreases t.len(),
{
    assert((seq!['%'] + p).skip(1) =~= p);
    assert((seq!['_'] + p).skip(1) =~= p);
    assert((seq!['\\', c] + p).skip(2) =~= p);
    assert((seq![c] + p).skip(1) =~= p);
    assert(t.skip(0) =~= t);
    assert(like_matches(p, t) == like_matches(p, t.skip(0)));
    if t.len() > 0 {
        law_patterns_are_read_from_the_left(p, c, t.skip(1));
        assert forall|n: int| 0 <= n <= t.len() - 1 implies #[trigger] t.skip(1).skip(n) == t.skip(
            n + 1,
        ) by {
            assert(t.skip(1).skip(n) =~= t.skip(n + 1));
        }
        if exists|n: int| 0 <= n <= t.len() && #[trigger] like_matches(p, t.skip(n)) {
            let n = choose|n: int| 0 <= n <= t.len() && #[trigger] like_matches(p, t.skip(n));
            if n > 0 {
                assert(like_matches(p, t.skip(1).skip(n - 1)));
            }
        }
        if exists|n: int| 0 <= n <= t.len() - 1 && #[trigger] like_matches(p, t.skip(1).skip(n)) {
            let n = choose|n: int|
                0 <= n <= t.len() - 1 && #[trigger] like_matches(p, t.skip(1).skip(n));
            assert(like_matches(p, t.skip(n + 1)));
        }
    } else {
        assert forall|n: int| 0 <= n <= t.len() && #[trigger] like_matches(
            p,
            t.skip(n),
        ) implies like_matches(p, t) by {
            assert(t.skip(n) =~= t);
        }
    }
}

/// A text is a part of another where that one can be cut in three, and the piece in the middle has
/// as many characters and the same, but for the case of ASCII letters.
pub proof fn law_part_of_a_text(s: Seq<char>, t: Seq<char>)
    ensures
        occurs_in(s, t) <==> exists|a: Seq<char>, mid: Seq<char>, b: Seq<char>|
            {
                &&& t == #[trigger] (a + mid + b)
                &&& mid.len() == s.len()
                &&& forall|j: int|
                    0 <= j < s.len() ==> {
                        let (c, d) = (#[trigger] s[j], mid[j]);
                        ||| c == d
                        ||| 65 <= c as int <= 90 && d as int == c as int + 32
                        ||| 65 <= d as int <= 90 && c as int == d as int + 32
                    }
            },
{
    if occurs_in(s, t) {
        let at = choose|at: int| #[trigger] occurs_at(s, t, at);
        let (a, mid, b) = (
            t.take(at),
            t.subrange(at, at + s.len()),
            t.skip(at + s.len()),
        );
        assert(t =~= a + mid + b);
        assert forall|j: int| 0 <= j < s.len() implies {
            let (c, d) = (#[trigger] s[j], mid[j]);
            ||| c == d
            ||| 65 <= c as int <= 90 && d as int == c as int + 32
            ||| 65 <= d as int <= 90 && c as int == d as int + 32
        } by {
            law_cases_of_ascii_letters_count_alike(s[j], mid[j]);
            assert(fold(s[j]) == fold(t[at + j]));
        }
    }
    assert forall|a: Seq<char>, mid: Seq<char>, b: Seq<char>|
        {
            &&& t == #[trigger] (a + mid + b)
            &&& mid.len() == s.len()
            &&& forall|j: int|
                0 <= j < s.len() ==> {
                    let (c, d) = (#[trigger] s[j], mid[j]);
                    ||| c == d
                    ||| 65 <= c as int <= 90 && d as int == c as int + 32
                    ||| 65 <= d as int <= 90 && c as int == d as int + 32
                }
        } implies occurs_in(s, t) by {
        let at = a.len() as int;
        assert forall|j: int| 0 <= j < s.len() implies fold(#[trigger] s[j]) == fold(t[at + j]) by {
            law_cases_of_ascii_letters_count_alike(s[j], mid[j]);
            assert(t[at + j] == mid[j]);
        }
        assert(occurs_at(s, t, at));
    }
}

} // verus!
