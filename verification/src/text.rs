//! The text transformations: case changes, slugs, leet speak, and the
//! `transmute` dispatcher that applies whichever one the command names.
use crate::command::{Command, SubCommand};
use crate::csv::CsvError;
use crate::csv_process::{process_csv, spec_process_csv};
use crate::strutil::{last_occurrence, lemma_last_occurrence, lemma_trim_trailing, push_char,
    trim_trailing};
use vstd::prelude::*;
use vstd::string::StrSliceExecFns;

verus! {

/// A short slug keeps at most this many characters of the full slug.
pub const MAX_SHORT_SLUG: usize = 16;

/// A short slug cropped to its last dash must keep at least this many
/// characters, else the uncropped prefix is used.
pub const MIN_SHORT_SLUG: usize = 5;

/// What `str::to_lowercase` returns: it depends on the characters alone.
pub uninterp spec fn lower_of(s: Seq<char>) -> Seq<char>;

/// Relies on str::to_lowercase: the result is a function of the characters
/// alone, and an empty string stays empty.
#[verifier::external_body]
fn to_lowercase_str(s: &str) -> (r: String)
    ensures
        r@ == lower_of(s@),
        s@.len() == 0 ==> r@.len() == 0,
{
    s.to_lowercase()
}

/// What `str::to_uppercase` returns: it depends on the characters alone.
pub uninterp spec fn upper_of(s: Seq<char>) -> Seq<char>;

/// Relies on str::to_uppercase: the result is a function of the characters
/// alone, and an empty string stays empty.
#[verifier::external_body]
fn to_uppercase_str(s: &str) -> (r: String)
    ensures
        r@ == upper_of(s@),
        s@.len() == 0 ==> r@.len() == 0,
{
    s.to_uppercase()
}

/// What `slug::slugify` returns: it depends on the characters alone.
pub uninterp spec fn slug_of(s: Seq<char>) -> Seq<char>;

/// Whether `c` can appear in a slug.
pub open spec fn is_slug_char(c: char) -> bool {
    ('a' <= c && c <= 'z') || ('0' <= c && c <= '9') || c == '-'
}

/// Relies on slug::slugify: the result is a function of the characters alone,
/// holds only `a`-`z`, `0`-`9` and `-`, never has two `-` in a row, and never
/// starts or ends with `-`.
#[verifier::external_body]
fn slugify_str(s: &str) -> (r: String)
    ensures
        r@ == slug_of(s@),
        forall|i: int| 0 <= i < r@.len() ==> is_slug_char(r@[i]),
        forall|i: int| 0 <= i < r@.len() - 1 ==> !(#[trigger] r@[i] == '-' && r@[i + 1] == '-'),
        r@.len() > 0 ==> r@[0] != '-' && r@.last() != '-',
{
    slug::slugify(s)
}

/// What convert_case's alternating conversion returns: it depends on the
/// characters alone.
pub uninterp spec fn alternating_of(s: Seq<char>) -> Seq<char>;

/// Relies on convert_case's Casing::to_case with Case::Alternating: the
/// result is a function of the characters alone.
#[verifier::external_body]
fn to_alternating_str(s: &str) -> (r: String)
    ensures
        r@ == alternating_of(s@),
{
    convert_case::Casing::to_case(&s, convert_case::Case::Alternating)
}

/// Lowercases the whole text.
pub fn lowercase(s: String) -> (r: Result<String, CsvError>)
    ensures
        r matches Ok(t) && t@ == lower_of(s@),
{
    Ok(to_lowercase_str(s.as_str()))
}

/// Uppercases the whole text.
pub fn uppercase(s: String) -> (r: Result<String, CsvError>)
    ensures
        r matches Ok(t) && t@ == upper_of(s@),
{
    Ok(to_uppercase_str(s.as_str()))
}

/// Removes every space character; all other characters stay in order.
pub fn no_spaces(s: String) -> (r: Result<String, CsvError>)
    ensures
        r matches Ok(t) && t@ == s@.filter(|c: char| c != ' '),
{
    let text = s.as_str();
    let n = text.unicode_len();
    let mut out = String::new();
    let mut i: usize = 0;
    proof {
        reveal(Seq::filter);
        assert(s@.take(0) =~= Seq::<char>::empty());
    }
    while i < n
        invariant
            n == s@.len(),
            text@ == s@,
            0 <= i <= n,
            out@ == s@.take(i as int).filter(|c: char| c != ' '),
        decreases n - i,
    {
        let c = text.get_char(i);
        if c != ' ' {
            push_char(&mut out, c);
        }
        proof {
            reveal(Seq::filter);
            assert(s@.take(i + 1).drop_last() =~= s@.take(i as int));
            assert(s@.take(i + 1).last() == c);
        }
        i = i + 1;
    }
    proof {
        assert(s@.take(n as int) =~= s@);
    }
    Ok(out)
}

/// Turns the text into a slug fit for a URL.
pub fn slugify(s: &str) -> (r: Result<String, CsvError>)
    ensures
        r matches Ok(t) && t@ == slug_of(s@),
{
    Ok(slugify_str(s))
}

/// The short slug: the first [`MAX_SHORT_SLUG`] characters of the slug,
/// cropped back to the last dash and stripped of trailing dashes — unless
/// that crop leaves fewer than [`MIN_SHORT_SLUG`] characters, in which case
/// the uncropped prefix stands.
pub open spec fn spec_short_slug(slug: Seq<char>) -> Seq<char> {
    let short = if slug.len() <= MAX_SHORT_SLUG {
        slug
    } else {
        slug.take(MAX_SHORT_SLUG as int)
    };
    let j = last_occurrence(short, '-');
    if j < 0 {
        short
    } else {
        let t = trim_trailing(short.take(j + 1), '-');
        if t.len() < MIN_SHORT_SLUG {
            short
        } else {
            t
        }
    }
}

/// Crops an already-made slug as [`spec_short_slug`] describes.
pub fn shorten_slug(slug: &str) -> (r: String)
    ensures
        r@ == spec_short_slug(slug@),
{
    let n = slug.unicode_len();
    let cut = if n <= MAX_SHORT_SLUG {
        n
    } else {
        MAX_SHORT_SLUG
    };
    let short = slug.substring_char(0, cut);
    let ghost shortv = short@;
    proof {
        if n <= MAX_SHORT_SLUG {
            assert(shortv =~= slug@);
        } else {
            assert(shortv =~= slug@.take(MAX_SHORT_SLUG as int));
        }
        lemma_last_occurrence(shortv, '-');
    }
    let mut i: usize = cut;
    let mut dash: usize = 0;
    let mut found = false;
    while i > 0 && !found
        invariant
            cut == shortv.len(),
            shortv == short@,
            0 <= i <= cut,
            !found ==> forall|k: int| i <= k < cut ==> shortv[k] != '-',
            found ==> i < cut && dash == i && shortv[dash as int] == '-' && forall|k: int|
                i < k < cut ==> shortv[k] != '-',
        decreases i + (if found {
            0int
        } else {
            1int
        }),
    {
        if short.get_char(i - 1) == '-' {
            dash = i - 1;
            found = true;
        }
        i = i - 1;
    }
    proof {
        if found {
            assert(last_occurrence(shortv, '-') == dash as int) by {
                lemma_last_occurrence(shortv, '-');
                if last_occurrence(shortv, '-') > dash as int {
                    assert(shortv[last_occurrence(shortv, '-')] != '-');
                }
                if last_occurrence(shortv, '-') < dash as int {
                    assert(shortv[dash as int] != '-');
                }
            }
        } else {
            assert(last_occurrence(shortv, '-') == -1) by {
                lemma_last_occurrence(shortv, '-');
                if last_occurrence(shortv, '-') >= 0 {
                    assert(shortv[last_occurrence(shortv, '-')] != '-');
                }
            }
        }
    }
    if !found {
        return short.to_owned();
    }
    let ghost kept = shortv.take(dash + 1);
    let mut k = dash + 1;
    while k > 0 && short.get_char(k - 1) == '-'
        invariant
            shortv == short@,
            dash < cut == shortv.len(),
            kept == shortv.take(dash + 1),
            0 <= k <= dash + 1,
            forall|j: int| k <= j < dash + 1 ==> shortv[j] == '-',
        decreases k,
    {
        k = k - 1;
    }
    proof {
        lemma_trim_trailing(kept, '-');
        let t = trim_trailing(kept, '-');
        assert(forall|j: int| 0 <= j < dash + 1 ==> kept[j] == shortv[j]);
        assert(t.len() == k as int) by {
            if t.len() > k as int {
                assert(kept[t.len() - 1] != '-');
                assert(kept[t.len() - 1] == '-');
            }
            if t.len() < k as int {
                assert(!(k == 0) && shortv[k - 1] != '-');
                assert(kept[k - 1] == '-');
            }
        }
        assert(t =~= shortv.take(k as int));
    }
    if k < MIN_SHORT_SLUG {
        short.to_owned()
    } else {
        short.substring_char(0, k).to_owned()
    }
}

/// The short slug of the text.
pub fn short_slugify(string: String) -> (r: Result<String, CsvError>)
    ensures
        r matches Ok(t) && t@ == spec_short_slug(slug_of(string@)),
{
    let slug = slugify_str(string.as_str());
    Ok(shorten_slug(slug.as_str()))
}

/// Alternates the text's case letter by letter.
pub fn alternating(s: String) -> (r: Result<String, CsvError>)
    ensures
        r matches Ok(t) && t@ == alternating_of(s@),
{
    Ok(to_alternating_str(s.as_str()))
}

/// How leet speak renders one uppercased character.
pub open spec fn leet_char(c: char) -> char {
    if c == 'A' {
        '4'
    } else if c == 'B' {
        '8'
    } else if c == 'E' {
        '3'
    } else if c == 'G' {
        '9'
    } else if c == 'I' {
        '1'
    } else if c == 'O' {
        '0'
    } else if c == 'S' {
        '5'
    } else if c == 'T' {
        '7'
    } else {
        c
    }
}

fn leet_char_exec(c: char) -> (r: char)
    ensures
        r == leet_char(c),
{
    match c {
        'A' => '4',
        'B' => '8',
        'E' => '3',
        'G' => '9',
        'I' => '1',
        'O' => '0',
        'S' => '5',
        'T' => '7',
        _ => c,
    }
}

/// Uppercases the text and substitutes the leet digits.
pub fn leetify(s: String) -> (r: Result<String, CsvError>)
    ensures
        r matches Ok(t) && t@ == upper_of(s@).map_values(|c: char| leet_char(c)),
{
    let up = to_uppercase_str(s.as_str());
    let text = up.as_str();
    let n = text.unicode_len();
    let mut out = String::new();
    let mut i: usize = 0;
    while i < n
        invariant
            n == up@.len(),
            text@ == up@,
            0 <= i <= n,
            out@ =~= up@.take(i as int).map_values(|c: char| leet_char(c)),
        decreases n - i,
    {
        let c = leet_char_exec(text.get_char(i));
        push_char(&mut out, c);
        proof {
            assert(out@ =~= up@.take(i + 1).map_values(|c: char| leet_char(c)));
        }
        i = i + 1;
    }
    proof {
        assert(up@.take(n as int) =~= up@);
    }
    Ok(out)
}

/// The consolation output when no valid command was given: the text with a
/// little something appended.
pub fn no_command(s: String) -> (r: Result<String, CsvError>)
    ensures
        r matches Ok(t) && t@ == s@.push('🧁'),
{
    let mut out = s;
    push_char(&mut out, '🧁');
    Ok(out)
}

/// Applies the named command to the text. Only the `csv` command can fail;
/// its input file, if any, must already be read into `file_content`.
pub fn transmute(string: String, command: Command, subcommand: SubCommand) -> (r: Result<
    String,
    CsvError,
>)
    ensures
        command == Command::Lowercase ==> (r matches Ok(t) && t@ == lower_of(string@)),
        command == Command::Uppercase ==> (r matches Ok(t) && t@ == upper_of(string@)),
        command == Command::NoSpaces ==> (r matches Ok(t) && t@ == string@.filter(
            |c: char| c != ' ',
        )),
        command == Command::Slugify ==> (r matches Ok(t) && t@ == slug_of(string@)),
        command == Command::ShortSlugify ==> (r matches Ok(t) && t@ == spec_short_slug(
            slug_of(string@),
        )),
        command == Command::Alternating ==> (r matches Ok(t) && t@ == alternating_of(string@)),
        command == Command::Leetify ==> (r matches Ok(t) && t@ == upper_of(string@).map_values(
            |c: char| leet_char(c),
        )),
        command == Command::Csv ==> res_view(r) == spec_process_csv(
            string@,
            subcommand,
            Option::<Seq<char>>::None,
        ),
        command == Command::NoCommand ==> (r matches Ok(t) && t@ == string@.push('🧁')),
{
    match command {
        Command::Lowercase => lowercase(string),
        Command::Uppercase => uppercase(string),
        Command::NoSpaces => no_spaces(string),
        Command::Slugify => slugify(string.as_str()),
        Command::ShortSlugify => short_slugify(string),
        Command::Alternating => alternating(string),
        Command::Leetify => leetify(string),
        Command::Csv => process_csv(string, subcommand, None),
        Command::NoCommand => no_command(string),
    }
}

/// A text result with its string seen as a character sequence.
pub open spec fn res_view(r: Result<String, CsvError>) -> Result<Seq<char>, CsvError> {
    match r {
        Ok(t) => Ok(t@),
        Err(e) => Err(e),
    }
}

} // verus!
