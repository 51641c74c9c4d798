//! A plain-string model of filesystem paths.
//!
//! Paths are `String`s with `/` as the separator. The final component of a
//! path (its file name) is everything after the last `/`; a path that is empty
//! or ends in `/` has no file name.

use vstd::prelude::*;
use crate::text::append_decimal;
use crate::text::dec_digits;
use crate::text::digit_char;
use crate::text::is_digit_char;
use crate::text::last_index_of;

verus! {

/// The position just after the last occurrence of `c` in `s`; 0 when `s` has
/// no `c`.
pub open spec fn suffix_start(s: Seq<char>, c: char) -> nat
    decreases s.len(),
{
    if s.len() == 0 {
        0
    } else if s.last() == c {
        s.len()
    } else {
        suffix_start(s.drop_last(), c)
    }
}

pub proof fn lemma_suffix_start_bounds(s: Seq<char>, c: char)
    ensures
        suffix_start(s, c) <= s.len(),
        forall|j: int| suffix_start(s, c) <= j < s.len() ==> s[j] != c,
        suffix_start(s, c) > 0 ==> s[suffix_start(s, c) - 1] == c,
    decreases s.len(),
{
    if s.len() > 0 && s.last() != c {
        lemma_suffix_start_bounds(s.drop_last(), c);
        assert(forall|j: int| 0 <= j < s.len() - 1 ==> s[j] == s.drop_last()[j]);
    }
}

/// A position after an occurrence of `c` with no later occurrence is where the
/// suffix starts; a `c`-free sequence has suffix start 0.
pub proof fn lemma_suffix_start_at(s: Seq<char>, c: char, k: nat)
    requires
        k <= s.len(),
        forall|j: int| k <= j < s.len() ==> s[j] != c,
        k > 0 ==> s[k - 1] == c,
    ensures
        suffix_start(s, c) == k,
    decreases s.len(),
{
    if s.len() > 0 && s.last() != c {
        lemma_suffix_start_at(s.drop_last(), c, k);
    }
}

/// The position where the final path component of `s` begins.
pub open spec fn name_start(s: Seq<char>) -> nat {
    suffix_start(s, '/')
}

/// The final path component of `s`: everything after the last `/`.
pub open spec fn file_name_of(s: Seq<char>) -> Seq<char> {
    s.subrange(name_start(s) as int, s.len() as int)
}

/// Whether `s` has a non-empty final component.
pub open spec fn has_file_name(s: Seq<char>) -> bool {
    name_start(s) < s.len()
}

/// `dir` and `name` joined with a `/` between them.
pub open spec fn join_seq(dir: Seq<char>, name: Seq<char>) -> Seq<char> {
    dir + seq!['/'] + name
}

/// Joins a directory path and a child name.
pub fn path_join(dir: &str, name: &str) -> (r: String)
    ensures
        r@ == join_seq(dir@, name@),
{
    let mut r = String::from_str(dir);
    r.append("/");
    r.append(name);
    proof {
        reveal_strlit("/");
        assert(r@ =~= join_seq(dir@, name@));
    }
    r
}

/// The final path component of `path`, owned; `None` when there is none.
pub fn path_file_name(path: &str) -> (r: Option<String>)
    ensures
        match r {
            Some(nm) => has_file_name(path@) && nm@ == file_name_of(path@),
            None => !has_file_name(path@),
        },
{
    let n = path.unicode_len();
    match last_index_of(path, '/') {
        Some(i) => {
            proof {
                lemma_suffix_start_at(path@, '/', (i + 1) as nat);
            }
            if i + 1 == n {
                None
            } else {
                Some(String::from_str(path.substring_char(i + 1, n)))
            }
        },
        None => {
            proof {
                lemma_suffix_start_at(path@, '/', 0);
            }
            if n == 0 {
                None
            } else {
                Some(String::from_str(path.substring_char(0, n)))
            }
        },
    }
}

/// Joining a `/`-free, non-empty name onto any directory gives a path whose
/// final component is exactly that name.
pub proof fn lemma_join_file_name(dir: Seq<char>, name: Seq<char>)
    requires
        name.len() > 0,
        forall|j: int| 0 <= j < name.len() ==> name[j] != '/',
    ensures
        has_file_name(join_seq(dir, name)),
        file_name_of(join_seq(dir, name)) == name,
{
    let joined = join_seq(dir, name);
    lemma_suffix_start_at(joined, '/', (dir.len() + 1) as nat);
    assert(file_name_of(joined) =~= name);
}

/// The renamed form of `base` with numeric suffix `k`: `stem (k).ext` when the
/// final component has an extension, else `name (k)`, in the same directory.
/// Only the part after the last `.` counts as the extension, and a leading `.`
/// does not begin one.
pub open spec fn unique_name_seq(base: Seq<char>, k: nat) -> Seq<char> {
    let dir = base.subrange(0, name_start(base) as int);
    let name = file_name_of(base);
    let ds = suffix_start(name, '.');
    if ds >= 2 {
        let stem = name.subrange(0, ds - 1);
        let ext = name.subrange(ds as int, name.len() as int);
        dir + stem + seq![' ', '('] + dec_digits(k) + seq![')', '.'] + ext
    } else {
        dir + name + seq![' ', '('] + dec_digits(k) + seq![')']
    }
}

/// Generates the conflict-renamed variant of `base` with numeric suffix
/// `suffix`: the suffix is inserted in parentheses before the final extension,
/// or appended when the final component has no extension.
pub fn generate_unique_name(base: &str, suffix: usize) -> (r: String)
    requires
        has_file_name(base@),
        suffix >= 1,
    ensures
        r@ == unique_name_seq(base@, suffix as nat),
{
    let n = base.unicode_len();
    let name_pos: usize = match last_index_of(base, '/') {
        Some(i) => {
            proof {
                lemma_suffix_start_at(base@, '/', (i + 1) as nat);
            }
            i + 1
        },
        None => {
            proof {
                lemma_suffix_start_at(base@, '/', 0);
            }
            0
        },
    };
    let name_str = base.substring_char(name_pos, n);
    let name_len = n - name_pos;
    let ghost name = file_name_of(base@);
    let mut ext_pos: Option<usize> = None;
    match last_index_of(name_str, '.') {
        Some(j) => {
            proof {
                lemma_suffix_start_at(name, '.', (j + 1) as nat);
            }
            if j > 0 {
                ext_pos = Some(j);
            }
        },
        None => {
            proof {
                lemma_suffix_start_at(name, '.', 0);
            }
        },
    }
    let mut r = String::from_str(base.substring_char(0, name_pos));
    match ext_pos {
        Some(j) => {
            r.append(name_str.substring_char(0, j));
            r.append(" (");
            append_decimal(&mut r, suffix);
            r.append(").");
            r.append(name_str.substring_char(j + 1, name_len));
            proof {
                reveal_strlit(" (");
                reveal_strlit(").");
                assert(r@ =~= unique_name_seq(base@, suffix as nat));
            }
        },
        None => {
            r.append(name_str);
            r.append(" (");
            append_decimal(&mut r, suffix);
            r.append(")");
            proof {
                reveal_strlit(" (");
                reveal_strlit(")");
                assert(r@ =~= unique_name_seq(base@, suffix as nat));
            }
        },
    }
    r
}

proof fn lemma_dec_digits_are_digits(n: nat)
    ensures
        forall|j: int| 0 <= j < dec_digits(n).len() ==> is_digit_char(dec_digits(n)[j]),
    decreases n,
{
    if n < 10 {
        assert(is_digit_char(digit_char(n)));
    } else {
        lemma_dec_digits_are_digits(n / 10);
        assert(is_digit_char(digit_char(n % 10)));
        let d = dec_digits(n / 10).push(digit_char(n % 10));
        assert(forall|j: int| 0 <= j < d.len() - 1 ==> d[j] == dec_digits(n / 10)[j]);
        assert(d.last() == digit_char(n % 10));
    }
}

/// Renaming for uniqueness never changes the parent directory: the renamed
/// path keeps the directory prefix of `base`, its final component starting at
/// the same position.
pub proof fn lemma_unique_name_same_parent(base: Seq<char>, k: nat)
    requires
        has_file_name(base),
    ensures
        name_start(unique_name_seq(base, k)) == name_start(base),
        unique_name_seq(base, k).subrange(0, name_start(base) as int) == base.subrange(
            0,
            name_start(base) as int,
        ),
{
    let u = unique_name_seq(base, k);
    let ns = name_start(base);
    lemma_suffix_start_bounds(base, '/');
    lemma_dec_digits_are_digits(k);
    let name = file_name_of(base);
    lemma_suffix_start_bounds(name, '.');
    assert(forall|j: int| 0 <= j < name.len() ==> name[j] != '/');
    assert(forall|j: int| ns <= j < u.len() ==> u[j] != '/');
    lemma_suffix_start_at(u, '/', ns);
    assert(u.subrange(0, ns as int) =~= base.subrange(0, ns as int));
}

} // verus!
