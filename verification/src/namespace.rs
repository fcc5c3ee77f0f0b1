//! Namespaces: the names of directories, and of groups of logs.

use crate::text::{chars_of, same_text, string_of};
use vstd::prelude::*;

verus! {

/// Whether `c` may stand in the segment of a namespace.
pub open spec fn segment_char(c: char) -> bool {
    'A' <= c <= 'Z' || 'a' <= c <= 'z' || '0' <= c <= '9' || c == '.' || c == '_' || c == '-'
}

/// Whether `s` is the segment of a namespace: 1 to 128 of the characters `[A-Za-z0-9._-]`, and
/// not one of the names `.` and `..` that lead elsewhere.
pub open spec fn valid_segment(s: Seq<char>) -> bool {
    &&& 1 <= s.len() <= 128
    &&& forall|i: int| 0 <= i < s.len() ==> segment_char(#[trigger] s[i])
    &&& s != "."@
    &&& s != ".."@
}

/// Whether `s` is the segment of a namespace.
pub fn valid_namespace_segment(s: &str) -> (r: bool)
    ensures
        r == valid_segment(s@),
{
    let chars: Vec<char> = chars_of(s);
    if chars.len() == 0 || chars.len() > 128 {
        return false;
    }
    for i in 0..chars.len()
        invariant
            chars@ == s@,
            forall|j: int| 0 <= j < i ==> segment_char(#[trigger] s@[j]),
    {
        let c: char = chars[i];
        if !((c >= 'A' && c <= 'Z') || (c >= 'a' && c <= 'z') || (c >= '0' && c <= '9') || c == '.'
            || c == '_' || c == '-') {
            assert(!segment_char(s@[i as int]));
            return false;
        }
    }
    !same_text(s, ".") && !same_text(s, "..")
}

/// The pieces of `s` between the separators `sep`, among them the empty ones.
pub open spec fn split(s: Seq<char>, sep: char) -> Seq<Seq<char>>
    decreases s.len(),
{
    if s.len() == 0 {
        seq![Seq::<char>::empty()]
    } else {
        let front = split(s.drop_last(), sep);
        if s.last() == sep {
            front.push(Seq::<char>::empty())
        } else {
            front.drop_last().push(front.last().push(s.last()))
        }
    }
}

/// The pieces that are not empty.
pub open spec fn non_empty(pieces: Seq<Seq<char>>) -> Seq<Seq<char>>
    decreases pieces.len(),
{
    if pieces.len() == 0 {
        pieces
    } else if pieces.last().len() == 0 {
        non_empty(pieces.drop_last())
    } else {
        non_empty(pieces.drop_last()).push(pieces.last())
    }
}

/// The segments that a namespace, written as a path, names: `.` and the empty text name the root,
/// and empty pieces between slashes count for nothing.
pub open spec fn ns_segments(s: Seq<char>) -> Seq<Seq<char>> {
    if s.len() == 0 || s == "."@ {
        Seq::empty()
    } else {
        non_empty(split(s, '/'))
    }
}

proof fn lemma_split_not_empty(s: Seq<char>, sep: char)
    ensures
        split(s, sep).len() > 0,
    decreases s.len(),
{
    if s.len() > 0 {
        lemma_split_not_empty(s.drop_last(), sep);
    }
}

/// The segments that a namespace, written as a path, names.
pub fn parse_ns(ns: &str) -> (r: Vec<String>)
    ensures
        crate::text::texts(r@) == ns_segments(ns@),
{
    let mut segments: Vec<String> = Vec::new();
    if ns.is_empty() || same_text(ns, ".") {
        assert(crate::text::texts(segments@) =~= ns_segments(ns@));
        return segments;
    }
    let chars: Vec<char> = chars_of(ns);
    let mut start: usize = 0;
    proof {
        assert(chars@.take(0) =~= Seq::empty());
        assert(split(chars@.take(0), '/').drop_last() =~= Seq::empty());
    }
    for i in 0..chars.len()
        invariant
            chars@ == ns@,
            start <= i <= chars@.len(),
            split(chars@.take(i as int), '/').len() > 0,
            split(chars@.take(i as int), '/').last() =~= chars@.subrange(start as int, i as int),
            crate::text::texts(segments@) =~= non_empty(split(chars@.take(i as int), '/').drop_last()),
    {
        let ghost before = split(chars@.take(i as int), '/');
        let ghost after = split(chars@.take(i + 1), '/');
        assert(chars@.take(i + 1).drop_last() =~= chars@.take(i as int));
        if chars[i] == '/' {
            assert(after.drop_last() =~= before);
            if start < i {
                segments.push(string_of(&chars, start, i));
            }
            start = i + 1;
        } else {
            assert(after.drop_last() =~= before.drop_last());
        }
    }
    assert(chars@.take(chars@.len() as int) =~= chars@);
    if start < chars.len() {
        segments.push(string_of(&chars, start, chars.len()));
    }
    assert(crate::text::texts(segments@) =~= ns_segments(ns@));
    segments
}

/// The path that joins segments with slashes.
pub open spec fn join_path(segments: Seq<Seq<char>>) -> Seq<char>
    decreases segments.len(),
{
    if segments.len() == 0 {
        Seq::empty()
    } else if segments.len() == 1 {
        segments[0]
    } else {
        join_path(segments.drop_last()) + seq!['/'] + segments.last()
    }
}

proof fn lemma_split_piece(s: Seq<char>, piece: Seq<char>, sep: char)
    requires
        !piece.contains(sep),
    ensures
        split(s + piece, sep).len() > 0,
        split(s + piece, sep) == split(s, sep).drop_last().push(split(s, sep).last() + piece),
    decreases piece.len(),
{
    lemma_split_not_empty(s, sep);
    if piece.len() == 0 {
        assert(s + piece =~= s);
        assert(split(s, sep).last() + piece =~= split(s, sep).last());
        assert(split(s, sep) =~= split(s, sep).drop_last().push(split(s, sep).last() + piece));
    } else {
        assert forall|c: char| piece.drop_last().contains(c) implies piece.contains(c) by {
            let k = choose|k: int| 0 <= k < piece.len() - 1 && piece.drop_last()[k] == c;
            assert(piece[k] == c);
        }
        assert(piece.last() != sep) by {
            assert(piece[piece.len() - 1] == piece.last());
        }
        lemma_split_piece(s, piece.drop_last(), sep);
        assert((s + piece).drop_last() =~= s + piece.drop_last());
        let front = split(s + piece.drop_last(), sep);
        assert(front.drop_last() =~= split(s, sep).drop_last());
        assert(front.last().push(piece.last()) =~= split(s, sep).last() + piece);
    }
}

proof fn lemma_split_join(segments: Seq<Seq<char>>)
    requires
        segments.len() > 0,
        forall|i: int| 0 <= i < segments.len() ==> !(#[trigger] segments[i]).contains('/'),
    ensures
        split(join_path(segments), '/') =~= segments,
    decreases segments.len(),
{
    let nothing = Seq::<char>::empty();
    let last = segments.last();
    if segments.len() == 1 {
        lemma_split_piece(nothing, last, '/');
        assert(nothing + last =~= last);
        assert(split(nothing, '/').last() + last =~= last);
    } else {
        let front = join_path(segments.drop_last());
        lemma_split_join(segments.drop_last());
        let slash = front.push('/');
        assert(slash.drop_last() =~= front);
        assert(front + seq!['/'] =~= slash);
        lemma_split_piece(slash, last, '/');
        assert(split(slash, '/').last() + last =~= last);
        assert(split(slash, '/').drop_last() =~= split(front, '/'));
    }
}

proof fn lemma_non_empty_all(pieces: Seq<Seq<char>>)
    requires
        forall|i: int| 0 <= i < pieces.len() ==> (#[trigger] pieces[i]).len() > 0,
    ensures
        non_empty(pieces) =~= pieces,
    decreases pieces.len(),
{
    if pieces.len() > 0 {
        lemma_non_empty_all(pieces.drop_last());
    }
}

/// Segments that are joined with slashes come back when the path is parsed: the root is written
/// as nothing at all. The one segment `.` alone is left out, since it names the root too.
pub proof fn law_path_names_its_segments(segments: Seq<Seq<char>>)
    requires
        forall|i: int| 0 <= i < segments.len() ==> (#[trigger] segments[i]).len() > 0,
        forall|i: int| 0 <= i < segments.len() ==> !(#[trigger] segments[i]).contains('/'),
        segments != seq!["."@],
    ensures
        ns_segments(join_path(segments)) == segments,
{
    reveal_strlit(".");
    if segments.len() > 0 {
        lemma_split_join(segments);
        lemma_non_empty_all(segments);
        let path = join_path(segments);
        if path.len() == 0 || path == "."@ {
            assert(segments[0].len() > 0);
            if segments.len() > 1 {
                assert(path.contains('/')) by {
                    let front = join_path(segments.drop_last());
                    assert(path[front.len() as int] == '/');
                }
            } else {
                assert(segments =~= seq!["."@]);
            }
        }
    } else {
        assert(ns_segments(join_path(segments)) =~= segments);
    }
}

/// A segment has 1 to 128 letters, digits, dots, underscores and hyphens, all of ASCII, and is
/// neither one dot nor two.
pub proof fn law_segment_rules(s: Seq<char>)
    ensures
        valid_segment(s) <==> {
            &&& 1 <= s.len()
            &&& s.len() <= 128
            &&& forall|i: int|
                0 <= i < s.len() ==> {
                    let c = #[trigger] s[i] as int;
                    ||| 48 <= c <= 57
                    ||| 65 <= c <= 90
                    ||| 97 <= c <= 122
                    ||| c == 45
                    ||| c == 46
                    ||| c == 95
                }
            &&& !(s.len() <= 2 && forall|i: int| 0 <= i < s.len() ==> #[trigger] s[i] == '.')
        },
{
    reveal_strlit(".");
    reveal_strlit("..");
    if 1 <= s.len() <= 2 && (forall|i: int| 0 <= i < s.len() ==> #[trigger] s[i] == '.') {
        if s.len() == 1 {
            assert(s =~= "."@);
        } else {
            assert(s =~= ".."@);
        }
    }
    if valid_segment(s) {
        assert forall|i: int| 0 <= i < s.len() implies {
            let c = #[trigger] s[i] as int;
            ||| 48 <= c <= 57
            ||| 65 <= c <= 90
            ||| 97 <= c <= 122
            ||| c == 45
            ||| c == 46
            ||| c == 95
        } by {
            assert(segment_char(s[i]));
        }
    }
}

proof fn lemma_split_at(p: Seq<char>, sep: char, q: Seq<char>)
    ensures
        split(p + seq![sep] + q, sep) == split(p, sep) + split(q, sep),
    decreases q.len(),
{
    lemma_split_not_empty(p, sep);
    lemma_split_not_empty(q, sep);
    let s = p + seq![sep] + q;
    if q.len() == 0 {
        assert(s.drop_last() =~= p);
        assert(split(s, sep) =~= split(p, sep) + split(q, sep));
    } else {
        lemma_split_at(p, sep, q.drop_last());
        lemma_split_not_empty(q.drop_last(), sep);
        assert(s.drop_last() =~= p + seq![sep] + q.drop_last());
        assert(split(s, sep) =~= split(p, sep) + split(q, sep));
    }
}

proof fn lemma_non_empty_add(a: Seq<Seq<char>>, b: Seq<Seq<char>>)
    ensures
        non_empty(a + b) == non_empty(a) + non_empty(b),
    decreases b.len(),
{
    if b.len() == 0 {
        assert(a + b =~= a);
        assert(non_empty(a) + non_empty(b) =~= non_empty(a));
    } else {
        lemma_non_empty_add(a, b.drop_last());
        assert((a + b).drop_last() =~= a + b.drop_last());
        assert(non_empty(a + b) =~= non_empty(a) + non_empty(b));
    }
}

/// Whether `segments` are the texts between the slashes of `path`, those that are empty left out:
/// a path without a slash is one segment, or none where it is empty, and a slash parts the
/// segments before it from those behind it.
pub open spec fn lies_between_slashes(path: Seq<char>, segments: Seq<Seq<char>>) -> bool
    decreases path.len(),
{
    if exists|k: int| 0 <= k < path.len() && path[k] == '/' {
        let k = choose|k: int| 0 <= k < path.len() && path[k] == '/';
        exists|n: int|
            0 <= n <= segments.len() && lies_between_slashes(path.take(k), #[trigger] segments.take(n))
                && lies_between_slashes(path.skip(k + 1), segments.skip(n))
    } else if path.len() == 0 {
        segments.len() == 0
    } else {
        segments.len() == 1 && segments[0] == path
    }
}

proof fn lemma_between_slashes(path: Seq<char>)
    ensures
        lies_between_slashes(path, non_empty(split(path, '/'))),
    decreases path.len(),
{
    let segments = non_empty(split(path, '/'));
    if exists|k: int| 0 <= k < path.len() && path[k] == '/' {
        let k = choose|k: int| 0 <= k < path.len() && path[k] == '/';
        let (p, q) = (path.take(k), path.skip(k + 1));
        assert(path =~= p + seq!['/'] + q);
        lemma_split_at(p, '/', q);
        lemma_non_empty_add(split(p, '/'), split(q, '/'));
        lemma_between_slashes(p);
        lemma_between_slashes(q);
        let n = non_empty(split(p, '/')).len() as int;
        assert(segments.take(n) =~= non_empty(split(p, '/')));
        assert(segments.skip(n) =~= non_empty(split(q, '/')));
    } else {
        let nothing = Seq::<char>::empty();
        assert(!path.contains('/'));
        lemma_split_piece(nothing, path, '/');
        assert(nothing + path =~= path);
        assert(split(nothing, '/').last() + path =~= path);
        assert(split(path, '/') =~= seq![path]);
        reveal_with_fuel(non_empty, 2);
        assert(seq![path].drop_last() =~= Seq::empty());
    }
}

/// The segments of a namespace lie between its slashes; the empty text and the single dot name the
/// root, which has none.
pub proof fn law_slashes_part_the_segments(path: Seq<char>)
    ensures
        path.len() == 0 || path == seq!['.'] ==> ns_segments(path).len() == 0,
        path != seq!['.'] ==> lies_between_slashes(path, ns_segments(path)),
{
    reveal_strlit(".");
    assert("."@ =~= seq!['.']);
    lemma_between_slashes(path);
}

} // verus!
