//! Persistence planning: where a file or image payload will be written.
//!
//! The stores own no I/O. They compute the target path from the base
//! directory, the client-supplied name, the collision check's outcome and the
//! current Unix timestamp; the caller performs the existence check and the
//! write and hands the results in.
use crate::strutil::{last_occurrence, lemma_last_occurrence, push_char, spec_dec, u64_to_dec};
use vstd::prelude::*;
use vstd::string::{StrSliceExecFns, StringExecFns};

verus! {

/// The collision-avoiding rename: the current Unix timestamp is put in front
/// of the extension (`a.txt` becomes `a_<ts>.txt`), or appended when the name
/// has no extension. A leading dot does not start an extension.
pub open spec fn spec_disambiguated(name: Seq<char>, ts: nat) -> Seq<char> {
    let j = last_occurrence(name, '.');
    if j > 0 {
        name.take(j) + seq!['_'] + spec_dec(ts) + seq!['.'] + name.skip(j + 1)
    } else {
        name + seq!['_'] + spec_dec(ts)
    }
}

/// Renames `name` so that it cannot collide with itself: the timestamp goes
/// before the extension, or at the end if there is none.
pub fn make_unique_name(name: &str, timestamp: u64) -> (r: String)
    ensures
        r@ == spec_disambiguated(name@, timestamp as nat),
{
    let n = name.unicode_len();
    proof {
        lemma_last_occurrence(name@, '.');
    }
    let mut i: usize = n;
    let mut dot: usize = 0;
    let mut found = false;
    while i > 0 && !found
        invariant
            n == name@.len(),
            0 <= i <= n,
            !found ==> forall|k: int| i <= k < n ==> name@[k] != '.',
            found ==> i < n && dot == i && name@[dot as int] == '.' && forall|k: int|
                i < k < n ==> name@[k] != '.',
        decreases i + (if found { 0int } else { 1int }),
    {
        if name.get_char(i - 1) == '.' {
            dot = i - 1;
            found = true;
        }
        i = i - 1;
    }
    proof {
        if found {
            assert(last_occurrence(name@, '.') == dot as int) by {
                lemma_last_occurrence(name@, '.');
                if last_occurrence(name@, '.') > dot as int {
                    assert(name@[last_occurrence(name@, '.')] != '.');
                }
                if last_occurrence(name@, '.') < dot as int {
                    assert(name@[dot as int] != '.');
                }
            }
        } else {
            assert(last_occurrence(name@, '.') == -1) by {
                lemma_last_occurrence(name@, '.');
                if last_occurrence(name@, '.') >= 0 {
                    assert(name@[last_occurrence(name@, '.')] != '.');
                }
            }
        }
    }
    let suffix = u64_to_dec(timestamp);
    if found && dot > 0 {
        let mut out = name.substring_char(0, dot).to_owned();
        push_char(&mut out, '_');
        out.append(suffix.as_str());
        push_char(&mut out, '.');
        out.append(name.substring_char(dot + 1, n));
        proof {
            assert(out@ =~= spec_disambiguated(name@, timestamp as nat));
        }
        out
    } else {
        let mut out = name.to_owned();
        push_char(&mut out, '_');
        out.append(suffix.as_str());
        proof {
            assert(out@ =~= spec_disambiguated(name@, timestamp as nat));
        }
        out
    }
}

/// `base` and `name` joined with a single path separator.
pub open spec fn spec_joined(base: Seq<char>, name: Seq<char>) -> Seq<char> {
    if base.len() == 0 {
        name
    } else if base.last() == '/' {
        base + name
    } else {
        base + seq!['/'] + name
    }
}

/// Joins a base directory and a file name.
pub fn join_path(base: &str, name: &str) -> (r: String)
    ensures
        r@ == spec_joined(base@, name@),
{
    let n = base.unicode_len();
    if n == 0 {
        return name.to_owned();
    }
    let mut out = base.to_owned();
    if base.get_char(n - 1) != '/' {
        push_char(&mut out, '/');
    }
    out.append(name);
    proof {
        assert(out@ =~= spec_joined(base@, name@));
    }
    out
}

/// The path a file payload goes to: `base/name`, renamed by
/// [`spec_disambiguated`] only when a file already sits at `base/name`.
pub open spec fn spec_file_target(
    base: Seq<char>,
    name: Seq<char>,
    candidate_taken: bool,
    ts: nat,
) -> Seq<char> {
    if candidate_taken {
        spec_joined(base, spec_disambiguated(name, ts))
    } else {
        spec_joined(base, name)
    }
}

/// The file store: plans collision-safe paths under its base directory.
pub struct FileStore {
    pub base_dir: String,
}

impl FileStore {
    pub fn new(base_dir: String) -> (r: Self)
        ensures
            r.base_dir == base_dir,
    {
        FileStore { base_dir }
    }

    /// The path the payload would be written to when nothing is in the way.
    pub fn candidate_path(&self, name: &str) -> (r: String)
        ensures
            r@ == spec_joined(self.base_dir@, name@),
    {
        join_path(self.base_dir.as_str(), name)
    }

    /// Decides the final path: the candidate itself, or — exactly when the
    /// caller found the candidate taken — the renamed one.
    pub fn plan_path(&self, name: &str, candidate_taken: bool, timestamp: u64) -> (r: String)
        ensures
            r@ == spec_file_target(self.base_dir@, name@, candidate_taken, timestamp as nat),
    {
        if candidate_taken {
            let unique = make_unique_name(name, timestamp);
            join_path(self.base_dir.as_str(), unique.as_str())
        } else {
            join_path(self.base_dir.as_str(), name)
        }
    }
}

/// The name an image payload is stored under: always
/// `<name>_<unix_seconds>.png`, with no existence check.
pub open spec fn spec_image_name(name: Seq<char>, ts: nat) -> Seq<char> {
    name + seq!['_'] + spec_dec(ts) + seq!['.', 'p', 'n', 'g']
}

/// The image store: plans the timestamped PNG path under its base directory.
pub struct ImageStore {
    pub base_dir: String,
}

impl ImageStore {
    pub fn new(base_dir: String) -> (r: Self)
        ensures
            r.base_dir == base_dir,
    {
        ImageStore { base_dir }
    }

    /// The path the converted PNG goes to.
    pub fn plan_path(&self, name: &str, timestamp: u64) -> (r: String)
        ensures
            r@ == spec_joined(self.base_dir@, spec_image_name(name@, timestamp as nat)),
    {
        let mut png = name.to_owned();
        push_char(&mut png, '_');
        let suffix = u64_to_dec(timestamp);
        png.append(suffix.as_str());
        png.append(".png");
        proof {
            reveal_strlit(".png");
            assert(png@ =~= spec_image_name(name@, timestamp as nat));
        }
        join_path(self.base_dir.as_str(), png.as_str())
    }
}

/// The decimal rendering is never empty.
pub proof fn lemma_dec_nonempty(n: nat)
    ensures
        spec_dec(n).len() >= 1,
    decreases n,
{
    if n >= 10 {
        lemma_dec_nonempty(n / 10);
    }
}

/// Collision handling: when a same-named file is already there, the planned
/// path differs from the candidate — the rename is never a no-op.
pub proof fn lemma_collision_paths_distinct(base: Seq<char>, name: Seq<char>, ts: nat)
    ensures
        spec_file_target(base, name, true, ts) != spec_file_target(base, name, false, ts),
{
    lemma_dec_nonempty(ts);
    lemma_last_occurrence(name, '.');
    assert(spec_disambiguated(name, ts).len() > name.len());
    assert(spec_joined(base, spec_disambiguated(name, ts)).len() > spec_joined(base, name).len());
}

} // verus!
