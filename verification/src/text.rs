//! Text helpers for recognising windows: white space, ASCII case folding
//! and title normalisation.

use vstd::prelude::*;

verus! {

/// Whether `c` has Unicode's White_Space property, as `char::is_whitespace`
/// documents it.
pub open spec fn is_white_space(c: char) -> bool {
    let n = c as u32;
    ||| 9 <= n <= 13
    ||| n == 32
    ||| n == 0x85
    ||| n == 0xA0
    ||| n == 0x1680
    ||| 0x2000 <= n <= 0x200A
    ||| n == 0x2028
    ||| n == 0x2029
    ||| n == 0x202F
    ||| n == 0x205F
    ||| n == 0x3000
}

pub fn white_space(c: char) -> (r: bool)
    ensures
        r == is_white_space(c),
{
    let n = c as u32;
    (9 <= n && n <= 13) || n == 32 || n == 0x85 || n == 0xA0 || n == 0x1680 || (0x2000 <= n && n
        <= 0x200A) || n == 0x2028 || n == 0x2029 || n == 0x202F || n == 0x205F || n == 0x3000
}

/// The code of `c` with ASCII upper-case letters taken to lower case.
pub open spec fn ascii_fold(c: char) -> u32 {
    let n = c as u32;
    if 65 <= n <= 90 {
        (n + 32) as u32
    } else {
        n
    }
}

/// Whether `a` and `b` are equal when ASCII letters are compared without
/// regard to case.
pub open spec fn same_ignoring_ascii_case(a: Seq<char>, b: Seq<char>) -> bool {
    &&& a.len() == b.len()
    &&& forall|i: int| 0 <= i < a.len() ==> ascii_fold(#[trigger] a[i]) == ascii_fold(b[i])
}

fn fold_char(c: char) -> (r: u32)
    ensures
        r == ascii_fold(c),
{
    let n = c as u32;
    if 65 <= n && n <= 90 {
        n + 32
    } else {
        n
    }
}

pub fn eq_ignore_ascii_case(a: &str, b: &str) -> (r: bool)
    ensures
        r == same_ignoring_ascii_case(a@, b@),
{
    let n = a.unicode_len();
    if n != b.unicode_len() {
        return false;
    }
    let mut i: usize = 0;
    while i < n
        invariant
            n == a@.len(),
            n == b@.len(),
            i <= n,
            forall|j: int| 0 <= j < i ==> ascii_fold(#[trigger] a@[j]) == ascii_fold(b@[j]),
        decreases n - i,
    {
        if fold_char(a.get_char(i)) != fold_char(b.get_char(i)) {
            return false;
        }
        i = i + 1;
    }
    true
}

/// The words of `s` (its longest runs of characters that are not white
/// space) joined by single spaces, with whether a gap follows the words so
/// far: the result for `s` is built from the result for `s` without its
/// last character.
pub open spec fn squash(s: Seq<char>) -> (Seq<char>, bool)
    decreases s.len(),
{
    if s.len() == 0 {
        (Seq::empty(), false)
    } else {
        let (out, gap) = squash(s.drop_last());
        let c = s.last();
        if is_white_space(c) {
            (out, out.len() > 0)
        } else if gap {
            (out.push(' ').push(c), false)
        } else {
            (out.push(c), false)
        }
    }
}

/// The words of `s` joined by single spaces.
pub open spec fn join_words(s: Seq<char>) -> Seq<char> {
    squash(s).0
}

/// Every character of `s` is white space.
pub open spec fn all_white_space(s: Seq<char>) -> bool {
    forall|i: int| 0 <= i < s.len() ==> is_white_space(#[trigger] s[i])
}

proof fn lemma_squash_empty(s: Seq<char>)
    ensures
        squash(s).0.len() == 0 <==> all_white_space(s),
        squash(s).1 ==> squash(s).0.len() > 0,
    decreases s.len(),
{
    if s.len() > 0 {
        lemma_squash_empty(s.drop_last());
        let p = s.drop_last();
        assert forall|i: int| 0 <= i < p.len() implies p[i] == s[i] by {}
        if all_white_space(s) {
            assert(is_white_space(s.last()));
            assert(all_white_space(p)) by {
                assert forall|i: int| 0 <= i < p.len() implies is_white_space(#[trigger] p[i]) by {
                    assert(is_white_space(s[i]));
                }
            }
        } else if squash(s).0.len() == 0 {
            assert(is_white_space(s.last()));
            assert(all_white_space(s)) by {
                assert forall|i: int| 0 <= i < s.len() implies is_white_space(#[trigger] s[i]) by {
                    if i < p.len() {
                        assert(is_white_space(p[i]));
                    }
                }
            }
        }
    }
}

/// `o` is a line of words: no white space but single spaces, none of them
/// first or last.
pub open spec fn tidy(o: Seq<char>) -> bool {
    &&& forall|i: int| 0 <= i < o.len() ==> #[trigger] o[i] == ' ' || !is_white_space(o[i])
    &&& o.len() > 0 ==> o[0] != ' '
    &&& forall|i: int| 0 <= i < o.len() && #[trigger] o[i] == ' ' ==> i + 1 < o.len() && o[i + 1] != ' '
}

/// `o` is a line of words that may end in one space.
spec fn pretidy(o: Seq<char>) -> bool {
    &&& forall|i: int| 0 <= i < o.len() ==> #[trigger] o[i] == ' ' || !is_white_space(o[i])
    &&& o.len() > 0 ==> o[0] != ' '
    &&& forall|i: int| 0 <= i < o.len() - 1 && #[trigger] o[i] == ' ' ==> o[i + 1] != ' '
}

proof fn lemma_squash_tidy(s: Seq<char>)
    ensures
        tidy(squash(s).0),
        squash(s).1 ==> squash(s).0.len() > 0,
    decreases s.len(),
{
    if s.len() > 0 {
        lemma_squash_tidy(s.drop_last());
        let (out, gap) = squash(s.drop_last());
        let c = s.last();
        if !is_white_space(c) {
            let o2 = if gap {
                out.push(' ').push(c)
            } else {
                out.push(c)
            };
            assert(o2 == squash(s).0);
            assert forall|i: int| 0 <= i < o2.len() implies #[trigger] o2[i] == ' ' || !is_white_space(o2[i]) by {
                if i < out.len() {
                    assert(o2[i] == out[i]);
                }
            }
            assert forall|i: int| 0 <= i < o2.len() && #[trigger] o2[i] == ' ' implies i + 1 < o2.len() && o2[i + 1] != ' ' by {
                if i < out.len() {
                    assert(o2[i] == out[i]);
                    if i + 1 < out.len() {
                        assert(o2[i + 1] == out[i + 1]);
                    } else {
                        assert(out[out.len() - 1] != ' ');
                    }
                }
            }
            if out.len() > 0 {
                assert(o2[0] == out[0]);
            }
        }
    }
}

proof fn lemma_squash_pretidy(o: Seq<char>)
    requires
        pretidy(o),
    ensures
        squash(o) == if o.len() > 0 && o.last() == ' ' {
            (o.drop_last(), true)
        } else {
            (o, false)
        },
    decreases o.len(),
{
    if o.len() > 0 {
        let p = o.drop_last();
        assert(pretidy(p)) by {
            assert forall|i: int| 0 <= i < p.len() implies #[trigger] p[i] == ' ' || !is_white_space(p[i]) by {
                assert(p[i] == o[i]);
            }
            assert forall|i: int| 0 <= i < p.len() - 1 && #[trigger] p[i] == ' ' implies p[i + 1] != ' ' by {
                assert(p[i] == o[i]);
                assert(p[i + 1] == o[i + 1]);
            }
            if p.len() > 0 {
                assert(p[0] == o[0]);
            }
        }
        lemma_squash_pretidy(p);
        let c = o.last();
        assert(o[o.len() - 1] == c);
        if c == ' ' {
            if p.len() > 0 {
                assert(p.last() == o[o.len() - 2]);
                assert(o[o.len() - 2] != ' ');
            } else {
                assert(o[0] == c);
            }
        } else {
            assert(!is_white_space(c));
            if p.len() > 0 && p.last() == ' ' {
                assert(p.drop_last().push(' ') =~= p);
                assert(p.push(c) =~= o);
            } else {
                assert(p.push(c) =~= o);
            }
        }
    }
}

/// Joining the words of a line of words gives it back, so joining words
/// twice is joining them once.
pub proof fn law_join_words_twice(s: Seq<char>)
    ensures
        tidy(join_words(s)),
        join_words(join_words(s)) == join_words(s),
{
    lemma_squash_tidy(s);
    let o = join_words(s);
    assert(pretidy(o)) by {
        assert forall|i: int| 0 <= i < o.len() - 1 && #[trigger] o[i] == ' ' implies o[i + 1] != ' ' by {}
    }
    lemma_squash_pretidy(o);
    if o.len() > 0 {
        assert(o[o.len() - 1] != ' ') by {
            if o[o.len() - 1] == ' ' {
                assert(o.len() - 1 + 1 < o.len());
            }
        }
    }
}

/// The words of a title are joined into nothing exactly when it holds no
/// word, that is only white space.
pub proof fn law_no_words_joins_to_nothing(s: Seq<char>)
    ensures
        join_words(s).len() == 0 <==> all_white_space(s),
{
    lemma_squash_empty(s);
}

/// What `str::to_lowercase` returns for a string with the characters `s`.
pub uninterp spec fn lowercase(s: Seq<char>) -> Seq<char>;

/// A title compared between sessions: its words joined by single spaces,
/// in lower case; `None` where nothing is left.
pub open spec fn normalized_title(title: Seq<char>) -> Option<Seq<char>> {
    let n = lowercase(join_words(title));
    if n.len() == 0 {
        None
    } else {
        Some(n)
    }
}

/// Calls `String::push`, which appends one character to the string.
#[verifier::external_body]
fn push_char(s: &mut String, c: char)
    ensures
        final(s)@ == old(s)@.push(c),
{
    s.push(c);
}

/// Calls `str::to_lowercase`, whose result is a function of the string's
/// characters alone, named `lowercase`. Unicode's case mapping is not
/// written out here.
#[verifier::external_body]
fn to_lowercase(s: &str) -> (r: String)
    ensures
        r@ == lowercase(s@),
{
    s.to_lowercase()
}

/// The words of `title` joined by single spaces.
pub fn join_title_words(title: &str) -> (r: String)
    ensures
        r@ == join_words(title@),
{
    let n = title.unicode_len();
    let mut out = String::new();
    let mut gap = false;
    let mut i: usize = 0;
    while i < n
        invariant
            n == title@.len(),
            i <= n,
            (out@, gap) == squash(title@.take(i as int)),
        decreases n - i,
    {
        let c = title.get_char(i);
        assert(title@.take(i + 1).drop_last() =~= title@.take(i as int));
        if white_space(c) {
            gap = out.unicode_len() > 0;
        } else {
            if gap {
                push_char(&mut out, ' ');
            }
            push_char(&mut out, c);
            gap = false;
        }
        i = i + 1;
    }
    assert(title@.take(n as int) =~= title@);
    out
}

/// The title as it is compared between sessions, `None` where it is empty
/// once white space is collapsed and it is lower-cased.
pub fn normalize_title(title: &str) -> (r: Option<String>)
    ensures
        match r {
            Some(t) => normalized_title(title@) == Some(t@),
            None => normalized_title(title@) is None,
        },
{
    let joined = join_title_words(title);
    let lowered = to_lowercase(joined.as_str());
    if lowered.as_str().unicode_len() == 0 {
        None
    } else {
        Some(lowered)
    }
}

} // verus!
