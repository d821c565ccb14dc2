//! Text as sequences of characters: searching, splitting and joining.

use vstd::prelude::*;
use vstd::slice::slice_subrange;

verus! {

/// `String::push`: the character is added at the end of the string.
pub assume_specification[ String::push ](s: &mut String, c: char)
    ensures
        final(s)@ == old(s)@.push(c),
;

/// The characters of `s` in order.
pub fn to_chars(s: &str) -> (chars: Vec<char>)
    ensures
        chars@ == s@,
{
    let mut chars: Vec<char> = Vec::new();
    for c in it: s.chars()
        invariant
            it.seq() == s@,
            chars@ == s@.take(it.index() as int),
    {
        chars.push(c);
    }
    chars
}

/// The string made of `chars`.
pub fn from_chars(chars: &[char]) -> (s: String)
    ensures
        s@ == chars@,
{
    let mut s = String::new();
    push_chars(&mut s, chars);
    s
}

/// Adds `chars` at the end of `s`.
pub fn push_chars(s: &mut String, chars: &[char])
    ensures
        final(s)@ == old(s)@ + chars@,
{
    let mut i: usize = 0;
    while i < chars.len()
        invariant
            i <= chars.len(),
            s@ == old(s)@ + chars@.take(i as int),
        decreases chars.len() - i,
    {
        s.push(chars[i]);
        i += 1;
    }
}

/// Whether two texts hold the same characters.
pub fn same_text(a: &str, b: &str) -> (same: bool)
    ensures
        same == (a@ == b@),
{
    a.to_string() == b.to_string()
}

/// The concatenation of two texts.
pub fn concat2(a: &str, b: &str) -> (s: String)
    ensures
        s@ == a@ + b@,
{
    let mut s = a.to_string();
    s.append(b);
    s
}

/// The concatenation of three texts.
pub fn concat3(a: &str, b: &str, c: &str) -> (s: String)
    ensures
        s@ == a@ + b@ + c@,
{
    let mut s = a.to_string();
    s.append(b);
    s.append(c);
    s
}

// Searching.

/// Position of the first `c` in `s`, or the length of `s` if there is none.
pub open spec fn first_index(s: Seq<char>, c: char) -> int
    decreases s.len(),
{
    if s.len() == 0 || s[0] == c {
        0
    } else {
        1 + first_index(s.drop_first(), c)
    }
}

/// What [`first_index`] says about the characters of `s`.
pub proof fn lemma_first_index(s: Seq<char>, c: char)
    ensures
        0 <= first_index(s, c) <= s.len(),
        forall|i: int| 0 <= i < first_index(s, c) ==> s[i] != c,
        first_index(s, c) < s.len() ==> s[first_index(s, c)] == c,
    decreases s.len(),
{
    if s.len() > 0 && s[0] != c {
        let rest = s.drop_first();
        lemma_first_index(rest, c);
        assert forall|i: int| 0 <= i < first_index(s, c) implies s[i] != c by {
            if i > 0 {
                assert(rest[i - 1] == s[i]);
            }
        }
    }
}

/// The first position is the only one with no `c` before it and `c` (or the end) at it.
pub proof fn lemma_first_index_is(s: Seq<char>, c: char, k: int)
    requires
        0 <= k <= s.len(),
        forall|i: int| 0 <= i < k ==> s[i] != c,
        k < s.len() ==> s[k] == c,
    ensures
        first_index(s, c) == k,
{
    lemma_first_index(s, c);
}

/// Finds the first `c`, or the length of `s`.
pub fn find_char(s: &[char], c: char) -> (k: usize)
    ensures
        k == first_index(s@, c),
{
    let mut k: usize = 0;
    while k < s.len()
        invariant
            k <= s.len(),
            forall|i: int| 0 <= i < k ==> s@[i] != c,
        decreases s.len() - k,
    {
        if s[k] == c {
            proof {
                lemma_first_index_is(s@, c, k as int);
            }
            return k;
        }
        k += 1;
    }
    proof {
        lemma_first_index_is(s@, c, k as int);
    }
    k
}

/// Whether `s` starts with `prefix`.
pub open spec fn starts_with(s: Seq<char>, prefix: Seq<char>) -> bool {
    prefix.len() <= s.len() && s.take(prefix.len() as int) == prefix
}

/// What follows `prefix` in `s`, or nothing if `s` does not start with it.
pub fn strip_prefix(s: &str, prefix: &str) -> (rest: Option<String>)
    ensures
        match rest {
            Some(r) => starts_with(s@, prefix@) && r@ == s@.skip(prefix@.len() as int),
            None => !starts_with(s@, prefix@),
        },
{
    let text = to_chars(s);
    let want = to_chars(prefix);
    if want.len() > text.len() {
        return None;
    }
    let mut i: usize = 0;
    while i < want.len()
        invariant
            i <= want.len() <= text.len(),
            text@ == s@,
            want@ == prefix@,
            text@.take(i as int) == want@.take(i as int),
        decreases want.len() - i,
    {
        if text[i] != want[i] {
            assert(text@.take(want@.len() as int)[i as int] != want@[i as int]);
            return None;
        }
        i += 1;
        assert(text@.take(i as int) =~= want@.take(i as int));
    }
    assert(want@.take(i as int) == want@);
    let rest = from_chars(slice_subrange(text.as_slice(), want.len(), text.len()));
    assert(rest@ == s@.skip(prefix@.len() as int));
    Some(rest)
}

// Splitting and joining.

/// The pieces of `s` between the separators: one more than there are separators.
pub open spec fn split(s: Seq<char>, sep: char) -> Seq<Seq<char>>
    decreases s.len(),
{
    let k = first_index(s, sep);
    if 0 <= k < s.len() {
        seq![s.take(k)] + split(s.skip(k + 1), sep)
    } else {
        seq![s]
    }
}

/// The pieces one after another with a separator between neighbours.
pub open spec fn join(parts: Seq<Seq<char>>, sep: char) -> Seq<char>
    decreases parts.len(),
{
    if parts.len() == 0 {
        Seq::empty()
    } else if parts.len() == 1 {
        parts[0]
    } else {
        parts[0] + seq![sep] + join(parts.drop_first(), sep)
    }
}

/// Splitting undoes joining when no piece holds the separator.
pub proof fn lemma_split_join(parts: Seq<Seq<char>>, sep: char)
    requires
        parts.len() >= 1,
        forall|i: int| 0 <= i < parts.len() ==> !(#[trigger] parts[i]).contains(sep),
    ensures
        split(join(parts, sep), sep) == parts,
    decreases parts.len(),
{
    let first = parts[0];
    let text = join(parts, sep);
    assert forall|i: int| 0 <= i < first.len() implies first[i] != sep by {
        if first[i] == sep {
            assert(first.contains(sep));
        }
    }
    if parts.len() == 1 {
        lemma_first_index_is(text, sep, text.len() as int);
        assert(split(text, sep) =~= parts);
    } else {
        let rest = parts.drop_first();
        let k = first.len() as int;
        assert forall|i: int| 0 <= i < rest.len() implies !(#[trigger] rest[i]).contains(sep) by {
            assert(rest[i] == parts[i + 1]);
        }
        lemma_split_join(rest, sep);
        assert(text[k] == sep);
        assert(forall|i: int| 0 <= i < k ==> text[i] == first[i]);
        lemma_first_index_is(text, sep, k);
        assert(text.take(k) =~= first);
        assert(text.skip(k + 1) =~= join(rest, sep));
        assert(split(text, sep) =~= parts);
    }
}

/// Joined pieces hold no character that neither a piece nor the separator has.
pub proof fn lemma_join_avoids(parts: Seq<Seq<char>>, sep: char, c: char)
    requires
        sep != c,
        forall|i: int| 0 <= i < parts.len() ==> !(#[trigger] parts[i]).contains(c),
    ensures
        !join(parts, sep).contains(c),
    decreases parts.len(),
{
    let t = join(parts, sep);
    if parts.len() == 1 {
        assert(t == parts[0]);
    } else if parts.len() > 1 {
        let first = parts[0];
        let rest = parts.drop_first();
        assert forall|i: int| 0 <= i < rest.len() implies !(#[trigger] rest[i]).contains(c) by {
            assert(rest[i] == parts[i + 1]);
        }
        lemma_join_avoids(rest, sep, c);
        let u = join(rest, sep);
        assert forall|i: int| 0 <= i < t.len() implies t[i] != c by {
            if i < first.len() {
                assert(first.contains(first[i]));
            } else if i > first.len() {
                assert(t[i] == u[i - first.len() - 1]);
                assert(u.contains(t[i]));
            }
        }
    }
}

/// The characters of each piece.
pub open spec fn views(parts: Seq<Vec<char>>) -> Seq<Seq<char>> {
    parts.map_values(|p: Vec<char>| p@)
}

/// Splits `s` at every `sep`.
pub fn split_chars(s: &[char], sep: char) -> (parts: Vec<Vec<char>>)
    ensures
        views(parts@) == split(s@, sep),
        parts@.len() >= 1,
{
    let mut parts: Vec<Vec<char>> = Vec::new();
    let mut start: usize = 0;
    assert(s@.skip(0) == s@);
    assert(views(parts@) + split(s@, sep) == split(s@, sep));
    loop
        invariant
            start <= s.len(),
            views(parts@) + split(s@.skip(start as int), sep) == split(s@, sep),
        decreases s.len() - start,
    {
        let rest = slice_subrange(s, start, s.len());
        assert(rest@ == s@.skip(start as int));
        let k = find_char(rest, sep);
        proof {
            lemma_first_index(rest@, sep);
        }
        let ghost before = parts@;
        let piece = copy_chars(slice_subrange(rest, 0, k));
        assert(piece@ == rest@.take(k as int));
        parts.push(piece);
        assert(views(parts@) == views(before).push(piece@));
        if k == rest.len() {
            assert(rest@.take(k as int) == rest@);
            assert(views(parts@) == split(s@, sep));
            return parts;
        }
        assert(rest@.skip(k + 1) == s@.skip(start + k + 1));
        assert(views(parts@) + split(s@.skip(start + k + 1), sep) == split(s@, sep));
        start = start + k + 1;
    }
}

/// A copy of `s`.
fn copy_chars(s: &[char]) -> (v: Vec<char>)
    ensures
        v@ == s@,
{
    let mut v: Vec<char> = Vec::new();
    let mut i: usize = 0;
    while i < s.len()
        invariant
            i <= s.len(),
            v@ == s@.take(i as int),
        decreases s.len() - i,
    {
        v.push(s[i]);
        i += 1;
    }
    v
}

/// A text starts with a prefix if it is that prefix with something behind it, and what
/// follows the prefix is what was put there.
pub proof fn law_starts_with(prefix: Seq<char>, rest: Seq<char>)
    ensures
        starts_with(prefix + rest, prefix),
        (prefix + rest).skip(prefix.len() as int) == rest,
{
    assert((prefix + rest).take(prefix.len() as int) =~= prefix);
    assert((prefix + rest).skip(prefix.len() as int) =~= rest);
}

/// A text that starts with a prefix is that prefix and what follows it.
pub proof fn law_starts_with_is(s: Seq<char>, prefix: Seq<char>)
    requires
        starts_with(s, prefix),
    ensures
        s == prefix + s.skip(prefix.len() as int),
{
    assert(s =~= s.take(prefix.len() as int) + s.skip(prefix.len() as int));
}

/// Joining undoes splitting, no piece of a split holds the separator, and there is at least
/// one piece.
pub proof fn law_join_split(s: Seq<char>, sep: char)
    ensures
        join(split(s, sep), sep) == s,
        split(s, sep).len() >= 1,
        forall|i: int| 0 <= i < split(s, sep).len() ==> !(#[trigger] split(s, sep)[i]).contains(
            sep,
        ),
    decreases s.len(),
{
    lemma_first_index(s, sep);
    let k = first_index(s, sep);
    let parts = split(s, sep);
    if k < s.len() {
        let rest = split(s.skip(k + 1), sep);
        law_join_split(s.skip(k + 1), sep);
        assert(parts.drop_first() =~= rest);
        assert(parts[0] == s.take(k));
        assert(s =~= s.take(k) + seq![sep] + s.skip(k + 1));
        assert forall|i: int| 0 <= i < parts.len() implies !(#[trigger] parts[i]).contains(sep) by {
            if i > 0 {
                assert(parts[i] == rest[i - 1]);
            }
        }
    }
}

/// Joined pieces are the pieces with a single separator before each one but the first.
pub proof fn law_join_adds_one_piece(parts: Seq<Seq<char>>, piece: Seq<char>, sep: char)
    ensures
        join(Seq::<Seq<char>>::empty().push(piece), sep) == piece,
        parts.len() > 0 ==> join(parts.push(piece), sep) == join(parts, sep) + seq![sep] + piece,
    decreases parts.len(),
{
    if parts.len() == 1 {
        let both = parts.push(piece);
        assert(both.drop_first() =~= seq![piece]);
        assert(join(seq![piece], sep) == piece);
        assert(join(both, sep) =~= parts[0] + seq![sep] + piece);
    } else if parts.len() > 1 {
        let rest = parts.drop_first();
        law_join_adds_one_piece(rest, piece, sep);
        assert(parts.push(piece).drop_first() =~= rest.push(piece));
        assert(join(parts.push(piece), sep) =~= join(parts, sep) + seq![sep] + piece);
    }
}

} // verus!
