//! Character-level string helpers shared by the codec, the stores and the
//! text utilities: equality, building strings one character at a time,
//! padding, splitting, and decimal rendering.
use vstd::prelude::*;
use vstd::string::StrSliceExecFns;

verus! {

/// A run of `n` spaces.
pub open spec fn spaces(n: nat) -> Seq<char> {
    Seq::new(n, |i: int| ' ')
}

/// What Rust's center-alignment padding produces: the text unchanged when it
/// already fills the width, otherwise spaces split around it with the odd
/// space on the right.
pub open spec fn spec_center(s: Seq<char>, w: nat) -> Seq<char> {
    if s.len() >= w {
        s
    } else {
        let pad = (w - s.len()) as nat;
        spaces(pad / 2) + s + spaces((pad - pad / 2) as nat)
    }
}

/// Character-for-character string equality.
pub fn str_eq(a: &str, b: &str) -> (r: bool)
    ensures
        r == (a@ == b@),
{
    let n = a.unicode_len();
    if n != b.unicode_len() {
        return false;
    }
    let mut i: usize = 0;
    while i < n
        invariant
            n == a@.len(),
            n == b@.len(),
            0 <= i <= n,
            forall|j: int| 0 <= j < i ==> a@[j] == b@[j],
        decreases n - i,
    {
        if a.get_char(i) != b.get_char(i) {
            return false;
        }
        i = i + 1;
    }
    proof {
        assert(a@ =~= b@);
    }
    true
}

/// Relies on String::push: appends exactly the one character.
#[verifier::external_body]
pub fn push_char(s: &mut String, c: char)
    ensures
        final(s)@ == old(s)@.push(c),
{
    s.push(c);
}

/// A one-character string.
pub fn char_string(c: char) -> (r: String)
    ensures
        r@ =~= seq![c],
{
    let mut s = String::new();
    push_char(&mut s, c);
    s
}

/// `n` copies of `c`.
pub fn repeat_char(c: char, n: usize) -> (r: String)
    ensures
        r@ =~= Seq::new(n as nat, |i: int| c),
{
    let mut s = String::new();
    let mut i: usize = 0;
    while i < n
        invariant
            0 <= i <= n,
            s@ =~= Seq::new(i as nat, |j: int| c),
        decreases n - i,
    {
        push_char(&mut s, c);
        i = i + 1;
    }
    s
}

/// Centers `s` in a field of `width` characters, padding with spaces and
/// putting the odd space on the right, as Rust's formatter does.
pub fn center(s: &str, width: usize) -> (r: String)
    ensures
        r@ =~= spec_center(s@, width as nat),
{
    let n = s.unicode_len();
    if n >= width {
        return s.to_owned();
    }
    let pad = width - n;
    let left = pad / 2;
    let right = pad - left;
    let mut out = repeat_char(' ', left);
    out.append(s);
    let tail = repeat_char(' ', right);
    out.append(tail.as_str());
    proof {
        assert(Seq::new(left as nat, |i: int| ' ') =~= spaces((pad / 2) as nat));
        assert(Seq::new(right as nat, |i: int| ' ') =~= spaces((pad - pad / 2) as nat));
    }
    out
}

/// Index of the first occurrence of `sep` in `s`, or `s.len()` if absent.
pub open spec fn first_sep(s: Seq<char>, sep: char) -> int
    decreases s.len(),
{
    if s.len() == 0 {
        0
    } else if s[0] == sep {
        0
    } else {
        1 + first_sep(s.drop_first(), sep)
    }
}

pub proof fn lemma_first_sep(s: Seq<char>, sep: char)
    ensures
        0 <= first_sep(s, sep) <= s.len(),
        forall|j: int| 0 <= j < first_sep(s, sep) ==> s[j] != sep,
        first_sep(s, sep) < s.len() ==> s[first_sep(s, sep)] == sep,
    decreases s.len(),
{
    if s.len() > 0 && s[0] != sep {
        lemma_first_sep(s.drop_first(), sep);
        assert forall|j: int| 0 <= j < first_sep(s, sep) implies s[j] != sep by {
            if j > 0 {
                assert(s.drop_first()[j - 1] == s[j]);
            }
        }
    }
}

/// The pieces of `s` between occurrences of `sep`; always at least one piece,
/// and `n` separators give `n + 1` pieces.
pub open spec fn spec_split(s: Seq<char>, sep: char) -> Seq<Seq<char>>
    decreases s.len(),
{
    let i = first_sep(s, sep);
    if !(0 <= i <= s.len()) {
        seq![s]  // unreachable; keeps the recursion well-formed
    } else if i == s.len() {
        seq![s]
    } else {
        seq![s.take(i)] + spec_split(s.skip(i + 1), sep)
    }
}

pub proof fn lemma_spec_split_len(s: Seq<char>, sep: char)
    ensures
        spec_split(s, sep).len() >= 1,
    decreases s.len(),
{
    lemma_first_sep(s, sep);
}

/// A piece with no separator splits into just itself.
pub proof fn lemma_split_whole(s: Seq<char>, sep: char)
    requires
        forall|j: int| 0 <= j < s.len() ==> s[j] != sep,
    ensures
        spec_split(s, sep) =~= seq![s],
    decreases s.len(),
{
    lemma_first_sep(s, sep);
}

/// Splitting at the first separator peels off one piece.
pub proof fn lemma_split_step(s: Seq<char>, sep: char, i: int)
    requires
        0 <= i < s.len(),
        s[i] == sep,
        forall|j: int| 0 <= j < i ==> s[j] != sep,
    ensures
        spec_split(s, sep) =~= seq![s.take(i)] + spec_split(s.skip(i + 1), sep),
{
    lemma_first_sep(s, sep);
    assert(first_sep(s, sep) == i) by {
        lemma_first_sep(s, sep);
        if first_sep(s, sep) < i {
            assert(s[first_sep(s, sep)] == sep);
        }
        if first_sep(s, sep) > i {
            assert(s[i] != sep);
        }
    }
}

/// Splits `s` on `sep`, as `str::split` does for a one-character pattern.
pub fn split_char(s: &str, sep: char) -> (r: Vec<String>)
    ensures
        r.deep_view() =~= spec_split(s@, sep),
{
    let n = s.unicode_len();
    let mut pieces: Vec<String> = Vec::new();
    let mut cur = String::new();
    let ghost mut start: int = 0int;
    let mut i: usize = 0;
    proof {
        assert(s@.skip(0) =~= s@);
        assert(pieces.deep_view() + spec_split(s@, sep) =~= spec_split(s@, sep));
    }
    while i < n
        invariant
            n == s@.len(),
            0 <= start <= i <= n,
            cur@ == s@.subrange(start, i as int),
            forall|j: int| start <= j < i ==> s@[j] != sep,
            spec_split(s@, sep) == pieces.deep_view() + spec_split(s@.skip(start), sep),
        decreases n - i,
    {
        let c = s.get_char(i);
        if c == sep {
            let ghost pdv = pieces.deep_view();
            let ghost piece = cur@;
            proof {
                let rest = s@.skip(start);
                assert(rest[i - start] == sep);
                assert(forall|j: int| 0 <= j < i - start ==> rest[j] != sep) by {
                    assert(forall|j: int| 0 <= j < i - start ==> rest[j] == s@[start + j]);
                }
                lemma_split_step(rest, sep, i - start);
                assert(rest.take(i - start) =~= s@.subrange(start, i as int));
                assert(rest.skip(i - start + 1) =~= s@.skip(i + 1));
            }
            pieces.push(cur);
            cur = String::new();
            proof {
                assert(pieces.deep_view() =~= pdv.push(piece));
                assert(pdv.push(piece) =~= pdv + seq![piece]);
                start = i + 1;
                assert(spec_split(s@, sep) =~= pieces.deep_view() + spec_split(
                    s@.skip(start),
                    sep,
                ));
            }
        } else {
            push_char(&mut cur, c);
            proof {
                assert(cur@ =~= s@.subrange(start, i + 1));
            }
        }
        i = i + 1;
    }
    let ghost pdv = pieces.deep_view();
    let ghost piece = cur@;
    proof {
        let rest = s@.skip(start);
        assert(forall|j: int| 0 <= j < rest.len() ==> rest[j] != sep) by {
            assert(forall|j: int| 0 <= j < rest.len() ==> rest[j] == s@[start + j]);
        }
        lemma_split_whole(rest, sep);
        assert(cur@ =~= rest);
    }
    pieces.push(cur);
    proof {
        assert(pieces.deep_view() =~= pdv.push(piece));
        assert(pdv.push(piece) =~= pdv + seq![piece]);
    }
    pieces
}

/// Index of the last occurrence of `c` in `s`, or `-1` if it has none.
pub open spec fn last_occurrence(s: Seq<char>, c: char) -> int
    decreases s.len(),
{
    if s.len() == 0 {
        -1
    } else if s.last() == c {
        s.len() - 1
    } else {
        last_occurrence(s.drop_last(), c)
    }
}

pub proof fn lemma_last_occurrence(s: Seq<char>, c: char)
    ensures
        -1 <= last_occurrence(s, c) < s.len(),
        last_occurrence(s, c) >= 0 ==> s[last_occurrence(s, c)] == c,
        forall|k: int| last_occurrence(s, c) < k < s.len() ==> s[k] != c,
    decreases s.len(),
{
    if s.len() > 0 && s.last() != c {
        lemma_last_occurrence(s.drop_last(), c);
        assert forall|k: int| last_occurrence(s, c) < k < s.len() implies s[k] != c by {
            if k < s.len() - 1 {
                assert(s.drop_last()[k] == s[k]);
            }
        }
    }
}

/// `s` with every trailing `c` removed.
pub open spec fn trim_trailing(s: Seq<char>, c: char) -> Seq<char>
    decreases s.len(),
{
    if s.len() > 0 && s.last() == c {
        trim_trailing(s.drop_last(), c)
    } else {
        s
    }
}

pub proof fn lemma_trim_trailing(s: Seq<char>, c: char)
    ensures
        trim_trailing(s, c).len() <= s.len(),
        trim_trailing(s, c) == s.take(trim_trailing(s, c).len() as int),
        forall|k: int| trim_trailing(s, c).len() <= k < s.len() ==> s[k] == c,
        trim_trailing(s, c).len() > 0 ==> s[trim_trailing(s, c).len() - 1] != c,
    decreases s.len(),
{
    if s.len() > 0 && s.last() == c {
        lemma_trim_trailing(s.drop_last(), c);
        let t = trim_trailing(s, c);
        assert(s.drop_last().take(t.len() as int) =~= s.take(t.len() as int));
        assert forall|k: int| t.len() <= k < s.len() implies s[k] == c by {
            if k < s.len() - 1 {
                assert(s.drop_last()[k] == s[k]);
            }
        }
    } else {
        assert(s.take(s.len() as int) =~= s);
    }
}

/// Replaces every occurrence of one character by another.
pub fn replace_char(s: &str, from: char, to: char) -> (r: String)
    ensures
        r@ == s@.map_values(|c: char| if c == from {
            to
        } else {
            c
        }),
{
    let n = s.unicode_len();
    let mut out = String::new();
    let mut i: usize = 0;
    while i < n
        invariant
            n == s@.len(),
            0 <= i <= n,
            out@ =~= s@.take(i as int).map_values(|c: char| if c == from {
                to
            } else {
                c
            }),
        decreases n - i,
    {
        let c = s.get_char(i);
        if c == from {
            push_char(&mut out, to);
        } else {
            push_char(&mut out, c);
        }
        proof {
            assert(out@ =~= s@.take(i + 1).map_values(|c: char| if c == from {
                to
            } else {
                c
            }));
        }
        i = i + 1;
    }
    proof {
        assert(s@.take(n as int) =~= s@);
    }
    out
}

/// The characters with the Unicode `White_Space` property, which is what
/// `str::trim` and `str::split_whitespace` strip.
pub open spec fn is_space(c: char) -> bool {
    c == ' ' || c == '\t' || c == '\n' || c == '\u{b}' || c == '\u{c}' || c == '\r' || c
        == '\u{85}' || c == '\u{a0}' || c == '\u{1680}' || ('\u{2000}' <= c && c <= '\u{200a}') || c
        == '\u{2028}' || c == '\u{2029}' || c == '\u{202f}' || c == '\u{205f}' || c == '\u{3000}'
}

/// Whether `c` is whitespace in the sense of [`is_space`].
pub fn is_space_char(c: char) -> (r: bool)
    ensures
        r == is_space(c),
{
    let u = c as u32;
    u == 0x20 || (0x09 <= u && u <= 0x0d) || u == 0x85 || u == 0xa0 || u == 0x1680 || (0x2000 <= u
        && u <= 0x200a) || u == 0x2028 || u == 0x2029 || u == 0x202f || u == 0x205f || u == 0x3000
}

/// How many whitespace characters `s` starts with.
pub open spec fn leading_spaces(s: Seq<char>) -> int
    decreases s.len(),
{
    if s.len() == 0 {
        0
    } else if !is_space(s[0]) {
        0
    } else {
        1 + leading_spaces(s.drop_first())
    }
}

pub proof fn lemma_leading_spaces(s: Seq<char>)
    ensures
        0 <= leading_spaces(s) <= s.len(),
        forall|j: int| 0 <= j < leading_spaces(s) ==> is_space(s[j]),
        leading_spaces(s) < s.len() ==> !is_space(s[leading_spaces(s)]),
    decreases s.len(),
{
    if s.len() > 0 && is_space(s[0]) {
        lemma_leading_spaces(s.drop_first());
        assert forall|j: int| 0 <= j < leading_spaces(s) implies is_space(s[j]) by {
            if j > 0 {
                assert(s.drop_first()[j - 1] == s[j]);
            }
        }
    }
}

/// How many whitespace characters `s` ends with.
pub open spec fn trailing_spaces(s: Seq<char>) -> int
    decreases s.len(),
{
    if s.len() == 0 {
        0
    } else if !is_space(s.last()) {
        0
    } else {
        1 + trailing_spaces(s.drop_last())
    }
}

pub proof fn lemma_trailing_spaces(s: Seq<char>)
    ensures
        0 <= trailing_spaces(s) <= s.len(),
        forall|j: int| s.len() - trailing_spaces(s) <= j < s.len() ==> is_space(s[j]),
        trailing_spaces(s) < s.len() ==> !is_space(s[s.len() - trailing_spaces(s) - 1]),
    decreases s.len(),
{
    if s.len() > 0 && is_space(s.last()) {
        lemma_trailing_spaces(s.drop_last());
        assert forall|j: int| s.len() - trailing_spaces(s) <= j < s.len() implies is_space(
            s[j],
        ) by {
            if j < s.len() - 1 {
                assert(s.drop_last()[j] == s[j]);
            }
        }
    }
}

/// `s` with leading and trailing whitespace removed, as `str::trim` leaves it.
pub open spec fn spec_trim(s: Seq<char>) -> Seq<char> {
    if leading_spaces(s) == s.len() {
        Seq::empty()
    } else {
        s.subrange(leading_spaces(s), s.len() - trailing_spaces(s))
    }
}

/// Trims whitespace from both ends.
pub fn trim(s: &str) -> (r: String)
    ensures
        r@ == spec_trim(s@),
{
    proof {
        lemma_leading_spaces(s@);
        lemma_trailing_spaces(s@);
    }
    let n = s.unicode_len();
    let mut a: usize = 0;
    while a < n && is_space_char(s.get_char(a))
        invariant
            n == s@.len(),
            0 <= a <= n,
            forall|j: int| 0 <= j < a ==> is_space(s@[j]),
        decreases n - a,
    {
        a = a + 1;
    }
    proof {
        assert(leading_spaces(s@) == a as int) by {
            lemma_leading_spaces(s@);
            if leading_spaces(s@) < a as int {
                assert(is_space(s@[leading_spaces(s@)]));
            }
        }
    }
    if a == n {
        return String::new();
    }
    let mut b: usize = n;
    while b > a && is_space_char(s.get_char(b - 1))
        invariant
            n == s@.len(),
            a as int == leading_spaces(s@),
            a < n,
            !is_space(s@[a as int]),
            a <= b <= n,
            forall|j: int| b <= j < n ==> is_space(s@[j]),
        decreases b,
    {
        b = b - 1;
    }
    proof {
        assert(trailing_spaces(s@) == n - b) by {
            lemma_trailing_spaces(s@);
            if trailing_spaces(s@) > n - b {
                assert(!is_space(s@[b - 1]) || b == a);
                if b == a {
                    assert(is_space(s@[a as int]));
                }
            }
            if trailing_spaces(s@) < n - b {
                assert(is_space(s@[n - trailing_spaces(s@) - 1]));
            }
        }
    }
    s.substring_char(a, b).to_owned()
}

/// Index of the first whitespace character in `s`, or `s.len()` if none.
pub open spec fn first_space(s: Seq<char>) -> int
    decreases s.len(),
{
    if s.len() == 0 {
        0
    } else if is_space(s[0]) {
        0
    } else {
        1 + first_space(s.drop_first())
    }
}

pub proof fn lemma_first_space(s: Seq<char>)
    ensures
        0 <= first_space(s) <= s.len(),
        forall|j: int| 0 <= j < first_space(s) ==> !is_space(s[j]),
        first_space(s) < s.len() ==> is_space(s[first_space(s)]),
    decreases s.len(),
{
    if s.len() > 0 && !is_space(s[0]) {
        lemma_first_space(s.drop_first());
        assert forall|j: int| 0 <= j < first_space(s) implies !is_space(s[j]) by {
            if j > 0 {
                assert(s.drop_first()[j - 1] == s[j]);
            }
        }
    }
}

/// The whitespace-separated words of `s`, in order, with no empty words, as
/// `str::split_whitespace` yields them.
pub open spec fn spec_words(s: Seq<char>) -> Seq<Seq<char>>
    decreases s.len(),
{
    if s.len() == 0 {
        Seq::empty()
    } else if is_space(s[0]) {
        spec_words(s.drop_first())
    } else {
        let j = first_space(s);
        if 1 <= j <= s.len() {
            seq![s.take(j)] + spec_words(s.skip(j))
        } else {
            Seq::empty()  // unreachable; keeps the recursion well-formed
        }
    }
}

/// Dropping one leading space drops nothing from the words.
pub proof fn lemma_words_skip_space(s: Seq<char>, i: int)
    requires
        0 <= i < s.len(),
        is_space(s[i]),
    ensures
        spec_words(s.skip(i)) == spec_words(s.skip(i + 1)),
{
    assert(s.skip(i).drop_first() =~= s.skip(i + 1));
    assert(s.skip(i)[0] == s[i]);
}

/// At a non-space, the next word runs to the next space (or the end).
pub proof fn lemma_words_take_word(s: Seq<char>, i: int, j: int)
    requires
        0 <= i < j <= s.len(),
        forall|k: int| i <= k < j ==> !is_space(s[k]),
        j < s.len() ==> is_space(s[j]),
    ensures
        spec_words(s.skip(i)) == seq![s.subrange(i, j)] + spec_words(s.skip(j)),
{
    let rest = s.skip(i);
    assert(!is_space(rest[0]));
    assert(first_space(rest) == j - i) by {
        lemma_first_space(rest);
        assert(forall|k: int| 0 <= k < j - i ==> rest[k] == s[i + k]);
        if first_space(rest) > j - i {
            assert(j < s.len());
            assert(rest[j - i] == s[j]);
            assert(!is_space(rest[j - i]));
        }
        if first_space(rest) < j - i {
            assert(is_space(rest[first_space(rest)]));
            assert(rest[first_space(rest)] == s[i + first_space(rest)]);
        }
    }
    assert(rest.take(j - i) =~= s.subrange(i, j));
    assert(rest.skip(j - i) =~= s.skip(j));
}

/// Splits `s` into its whitespace-separated words.
pub fn split_whitespace_vec(s: &str) -> (r: Vec<String>)
    ensures
        r.deep_view() == spec_words(s@),
{
    let n = s.unicode_len();
    let mut out: Vec<String> = Vec::new();
    let mut i: usize = 0;
    proof {
        assert(s@.skip(0) =~= s@);
        assert(out.deep_view() + spec_words(s@) =~= spec_words(s@));
    }
    while i < n
        invariant
            n == s@.len(),
            0 <= i <= n,
            spec_words(s@) == out.deep_view() + spec_words(s@.skip(i as int)),
        decreases n - i,
    {
        let c = s.get_char(i);
        if is_space_char(c) {
            proof {
                lemma_words_skip_space(s@, i as int);
            }
            i = i + 1;
        } else {
            let mut j = i + 1;
            while j < n && !is_space_char(s.get_char(j))
                invariant
                    n == s@.len(),
                    i < j <= n,
                    forall|k: int| i <= k < j ==> !is_space(s@[k]),
                decreases n - j,
            {
                j = j + 1;
            }
            let word = s.substring_char(i, j).to_owned();
            let ghost odv = out.deep_view();
            out.push(word);
            proof {
                lemma_words_take_word(s@, i as int, j as int);
                assert(out.deep_view() =~~= odv.push(s@.subrange(i as int, j as int)));
                assert(odv + (seq![s@.subrange(i as int, j as int)] + spec_words(
                    s@.skip(j as int),
                )) =~~= out.deep_view() + spec_words(s@.skip(j as int)));
            }
            i = j;
        }
    }
    proof {
        assert(s@.skip(n as int) =~= Seq::<char>::empty());
        assert(out.deep_view() + spec_words(s@.skip(n as int)) =~~= out.deep_view());
    }
    out
}

/// Whether `c` is an ASCII decimal digit.
pub open spec fn is_digit(c: char) -> bool {
    '0' <= c && c <= '9'
}

/// The numeric value of a digit character.
pub open spec fn digit_val(c: char) -> int
    recommends
        is_digit(c),
{
    c as int - '0' as int
}

pub open spec fn all_digits(s: Seq<char>) -> bool {
    forall|i: int| 0 <= i < s.len() ==> is_digit(#[trigger] s[i])
}

/// The number an all-digit sequence denotes.
pub open spec fn dec_val(s: Seq<char>) -> int
    decreases s.len(),
{
    if s.len() == 0 {
        0
    } else {
        dec_val(s.drop_last()) * 10 + digit_val(s.last())
    }
}

/// What `str::parse::<i32>` accepts: an optional sign, then one or more
/// ASCII digits, denoting a value in `i32`'s range.
pub open spec fn spec_parse_i32(s: Seq<char>) -> Option<i32> {
    if s.len() == 0 {
        None
    } else {
        let neg = s[0] == '-';
        let ds = if s[0] == '-' || s[0] == '+' {
            s.drop_first()
        } else {
            s
        };
        if ds.len() == 0 || !all_digits(ds) {
            None
        } else {
            let v = if neg {
                -dec_val(ds)
            } else {
                dec_val(ds)
            };
            if i32::MIN <= v <= i32::MAX {
                Some(v as i32)
            } else {
                None
            }
        }
    }
}

pub proof fn lemma_dec_val_bounds(s: Seq<char>)
    requires
        all_digits(s),
    ensures
        dec_val(s) >= 0,
        s.len() > 0 ==> dec_val(s) >= dec_val(s.drop_last()),
    decreases s.len(),
{
    if s.len() > 0 {
        assert(all_digits(s.drop_last())) by {
            assert(forall|i: int|
                0 <= i < s.len() - 1 ==> #[trigger] s.drop_last()[i] == s[i]);
        }
        lemma_dec_val_bounds(s.drop_last());
    }
}

/// A prefix of an all-digit sequence never denotes more than the whole.
pub proof fn lemma_dec_val_prefix(s: Seq<char>, k: int)
    requires
        all_digits(s),
        0 <= k <= s.len(),
    ensures
        dec_val(s.take(k)) <= dec_val(s),
    decreases s.len() - k,
{
    if k < s.len() {
        lemma_dec_val_prefix(s, k + 1);
        assert(s.take(k + 1).drop_last() =~= s.take(k));
        assert(all_digits(s.take(k + 1))) by {
            assert(forall|i: int| 0 <= i < k + 1 ==> #[trigger] s.take(k + 1)[i] == s[i]);
        }
        lemma_dec_val_bounds(s.take(k + 1));
    } else {
        assert(s.take(k) =~= s);
    }
}

/// Parses an integer as `str::parse::<i32>` does.
pub fn parse_i32(s: &str) -> (r: Option<i32>)
    ensures
        r == spec_parse_i32(s@),
{
    let n = s.unicode_len();
    if n == 0 {
        return None;
    }
    let c0 = s.get_char(0);
    let neg = c0 == '-';
    let start: usize = if c0 == '-' || c0 == '+' {
        1
    } else {
        0
    };
    let ghost ds = s@.skip(start as int);
    proof {
        if start == 1 {
            assert(ds =~= s@.drop_first());
        } else {
            assert(ds =~= s@);
        }
    }
    if n == start {
        return None;
    }
    let mut acc: u64 = 0;
    let mut i = start;
    while i < n
        invariant
            n == s@.len(),
            start <= i <= n,
            start < n,
            neg == (s@[0] == '-'),
            start == 0 || start == 1,
            start == 1 ==> (s@[0] == '-' || s@[0] == '+') && ds == s@.drop_first(),
            start == 0 ==> !(s@[0] == '-' || s@[0] == '+') && ds == s@,
            ds == s@.skip(start as int),
            ds.len() == n - start,
            all_digits(ds.take(i - start)),
            acc == dec_val(ds.take(i - start)),
            acc <= 0x8000_0000,
        decreases n - i,
    {
        let c = s.get_char(i);
        let u = c as u32;
        proof {
            assert(ds[i - start] == s@[i as int]);
            assert(ds.take(i - start + 1).drop_last() =~= ds.take(i - start));
        }
        if u < 0x30 || u > 0x39 {
            proof {
                assert(c as int == u as int);
                assert('0' as int == 0x30 && '9' as int == 0x39);
                assert(!is_digit(ds[i - start]));
                assert(!all_digits(ds));
                assert(spec_parse_i32(s@) is None);
            }
            return None;
        }
        let d = (u - 0x30) as u64;
        proof {
            assert(is_digit(ds[i - start]) && digit_val(ds[i - start]) == d) by {
                assert('0' as int == 0x30 && '9' as int == 0x39);
            }
            assert(forall|j: int|
                0 <= j < i - start + 1 ==> is_digit(#[trigger] ds.take(i - start + 1)[j]));
        }
        if acc > 0x0ccc_cccc || acc * 10 + d > 0x8000_0000 {
            proof {
                assert(dec_val(ds.take(i - start + 1)) > 0x8000_0000);
                if all_digits(ds) {
                    lemma_dec_val_prefix(ds, i - start + 1);
                    assert(dec_val(ds) > 0x8000_0000);
                    assert(spec_parse_i32(s@) is None);
                } else {
                    assert(ds.len() != 0);
                    assert(spec_parse_i32(s@) is None);
                }
            }
            return None;
        }
        acc = acc * 10 + d;
        i = i + 1;
    }
    proof {
        assert(ds.take(n - start) =~= ds);
    }
    if neg {
        if acc == 0x8000_0000 {
            Some(i32::MIN)
        } else {
            Some(-(acc as i32))
        }
    } else {
        if acc == 0x8000_0000 {
            None
        } else {
            Some(acc as i32)
        }
    }
}

/// The character for one decimal digit.
pub open spec fn digit_char(d: int) -> char
    recommends
        0 <= d <= 9,
{
    if d == 0 {
        '0'
    } else if d == 1 {
        '1'
    } else if d == 2 {
        '2'
    } else if d == 3 {
        '3'
    } else if d == 4 {
        '4'
    } else if d == 5 {
        '5'
    } else if d == 6 {
        '6'
    } else if d == 7 {
        '7'
    } else if d == 8 {
        '8'
    } else {
        '9'
    }
}

/// The decimal rendering of `n`, without sign or leading zeros.
pub open spec fn spec_dec(n: nat) -> Seq<char>
    decreases n,
{
    if n < 10 {
        seq![digit_char(n as int)]
    } else {
        spec_dec(n / 10).push(digit_char((n % 10) as int))
    }
}

fn dec_digit(d: u64) -> (c: char)
    requires
        d <= 9,
    ensures
        c == digit_char(d as int),
{
    if d == 0 {
        '0'
    } else if d == 1 {
        '1'
    } else if d == 2 {
        '2'
    } else if d == 3 {
        '3'
    } else if d == 4 {
        '4'
    } else if d == 5 {
        '5'
    } else if d == 6 {
        '6'
    } else if d == 7 {
        '7'
    } else if d == 8 {
        '8'
    } else {
        '9'
    }
}

/// Renders `n` in decimal.
pub fn u64_to_dec(n: u64) -> (r: String)
    ensures
        r@ =~= spec_dec(n as nat),
{
    let mut digits: Vec<char> = Vec::new();
    let mut m = n;
    loop
        invariant_except_break
            spec_dec(n as nat) == spec_dec(m as nat) + digits@.reverse(),
        ensures
            spec_dec(n as nat) == digits@.reverse(),
        decreases m,
    {
        let d = dec_digit(m % 10);
        let next = m / 10;
        let ghost dv = digits@;
        digits.push(d);
        proof {
            assert(digits@.reverse() =~= seq![d] + dv.reverse());
            if next > 0 {
                assert(m >= 10);
                assert(spec_dec(m as nat) == spec_dec((m as nat) / 10).push(
                    digit_char(((m as nat) % 10) as int),
                ));
                assert((m as nat) / 10 == next as nat);
                assert(spec_dec(next as nat).push(d) =~= spec_dec(next as nat) + seq![d]);
                assert(spec_dec(next as nat) + digits@.reverse() =~= spec_dec(next as nat) + (
                seq![d] + dv.reverse()));
                assert((spec_dec(next as nat) + seq![d]) + dv.reverse() =~= spec_dec(next as nat)
                    + (seq![d] + dv.reverse()));
                assert(spec_dec(n as nat) =~= spec_dec(next as nat) + digits@.reverse());
            } else {
                assert(m < 10);
                assert(spec_dec(m as nat) == seq![digit_char(m as int)]);
                assert(m as int == (m as nat) % 10 || m < 10);
                assert(spec_dec(n as nat) =~= digits@.reverse());
            }
        }
        if next == 0 {
            break;
        }
        m = next;
    }
    let mut out = String::new();
    let len = digits.len();
    let mut i: usize = len;
    while i > 0
        invariant
            0 <= i <= len,
            len == digits@.len(),
            out@ =~= digits@.subrange(i as int, len as int).reverse(),
        decreases i,
    {
        i = i - 1;
        push_char(&mut out, digits[i]);
        proof {
            let sub = digits@.subrange(i as int, len as int);
            let subn = digits@.subrange(i + 1, len as int);
            assert(sub.drop_first() =~= subn);
            assert(sub.reverse() =~= subn.reverse().push(sub[0]));
        }
    }
    proof {
        assert(digits@.subrange(0, len as int) =~= digits@);
    }
    out
}

} // verus!
