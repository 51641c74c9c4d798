//! Character and string utilities: decimal numerals, index scans, trimming,
//! unsigned-integer parsing and splitting, all specified over `Seq<char>`.

use vstd::prelude::*;

verus! {

// ---------------------------------------------------------------------------
// Decimal numerals
// ---------------------------------------------------------------------------

/// The decimal digit character for `d` (0 through 9).
pub open spec fn digit_char(d: nat) -> char {
    if d == 0 {
        '0'
    } else if d == 1 {
        '1'
    } else if d == 2 {
        '2'
    } else if d == 3 {
        '3'
    } else if d == 4 {
        '4'
    } else if d == 5 {
        '5'
    } else if d == 6 {
        '6'
    } else if d == 7 {
        '7'
    } else if d == 8 {
        '8'
    } else {
        '9'
    }
}

/// The decimal numeral of `n`, most significant digit first, without padding.
pub open spec fn dec_digits(n: nat) -> Seq<char>
    decreases n,
{
    if n < 10 {
        seq![digit_char(n)]
    } else {
        dec_digits(n / 10).push(digit_char(n % 10))
    }
}

fn append_digit(s: &mut String, d: usize)
    requires
        d < 10,
    ensures
        final(s)@ == old(s)@ + seq![digit_char(d as nat)],
{
    let ghost prev = s@;
    if d == 0 {
        s.append("0");
        proof {
            reveal_strlit("0");
        }
    } else if d == 1 {
        s.append("1");
        proof {
            reveal_strlit("1");
        }
    } else if d == 2 {
        s.append("2");
        proof {
            reveal_strlit("2");
        }
    } else if d == 3 {
        s.append("3");
        proof {
            reveal_strlit("3");
        }
    } else if d == 4 {
        s.append("4");
        proof {
            reveal_strlit("4");
        }
    } else if d == 5 {
        s.append("5");
        proof {
            reveal_strlit("5");
        }
    } else if d == 6 {
        s.append("6");
        proof {
            reveal_strlit("6");
        }
    } else if d == 7 {
        s.append("7");
        proof {
            reveal_strlit("7");
        }
    } else if d == 8 {
        s.append("8");
        proof {
            reveal_strlit("8");
        }
    } else {
        s.append("9");
        proof {
            reveal_strlit("9");
        }
    }
    proof {
        assert(s@ =~= prev + seq![digit_char(d as nat)]);
    }
}

/// Appends the decimal numeral of `n` to `s`.
pub fn append_decimal(s: &mut String, n: usize)
    ensures
        final(s)@ == old(s)@ + dec_digits(n as nat),
    decreases n,
{
    if n >= 10 {
        proof {
            assert(n / 10 < n) by (nonlinear_arith)
                requires
                    n >= 10,
            ;
        }
        append_decimal(s, n / 10);
    }
    append_digit(s, n % 10);
    proof {
        if n >= 10 {
            assert(s@ =~= old(s)@ + dec_digits(n as nat));
        } else {
            assert(n % 10 == n);
            assert(s@ =~= old(s)@ + dec_digits(n as nat));
        }
    }
}

// ---------------------------------------------------------------------------
// Index scans
// ---------------------------------------------------------------------------

/// The index of the last occurrence of `c` in `s`, if any.
pub fn last_index_of(s: &str, c: char) -> (r: Option<usize>)
    ensures
        match r {
            Some(i) => i < s@.len() && s@[i as int] == c && (forall|j: int|
                i < j < s@.len() ==> s@[j] != c),
            None => forall|j: int| 0 <= j < s@.len() ==> s@[j] != c,
        },
{
    let n = s.unicode_len();
    let mut k: usize = n;
    while k > 0
        invariant
            k <= n,
            n == s@.len(),
            forall|j: int| k <= j < s@.len() ==> s@[j] != c,
        decreases k,
    {
        if s.get_char(k - 1) == c {
            return Some(k - 1);
        }
        k = k - 1;
    }
    None
}

/// The index of the first occurrence of `c` in `s`, if any.
pub fn index_of(s: &str, c: char) -> (r: Option<usize>)
    ensures
        match r {
            Some(i) => i < s@.len() && s@[i as int] == c && (forall|j: int|
                0 <= j < i ==> s@[j] != c),
            None => forall|j: int| 0 <= j < s@.len() ==> s@[j] != c,
        },
{
    let n = s.unicode_len();
    let mut i: usize = 0;
    while i < n
        invariant
            i <= n,
            n == s@.len(),
            forall|j: int| 0 <= j < i ==> s@[j] != c,
        decreases n - i,
    {
        if s.get_char(i) == c {
            return Some(i);
        }
        i = i + 1;
    }
    None
}

/// Compares two strings character by character.
pub fn str_eq(a: &str, b: &str) -> (r: bool)
    ensures
        r == (a@ == b@),
{
    let n = a.unicode_len();
    if n != b.unicode_len() {
        return false;
    }
    let mut i: usize = 0;
    while i < n
        invariant
            i <= n,
            n == a@.len(),
            n == b@.len(),
            forall|j: int| 0 <= j < i ==> a@[j] == b@[j],
        decreases n - i,
    {
        if a.get_char(i) != b.get_char(i) {
            return false;
        }
        i = i + 1;
    }
    proof {
        assert(a@ =~= b@);
    }
    true
}

/// The index of the first occurrence of `c` in `s`; `s.len()` if `c` is absent.
pub open spec fn first_index_of(s: Seq<char>, c: char) -> nat
    decreases s.len(),
{
    if s.len() == 0 {
        0
    } else if s[0] == c {
        0
    } else {
        1 + first_index_of(s.subrange(1, s.len() as int), c)
    }
}

pub proof fn lemma_first_index_of(s: Seq<char>, c: char)
    ensures
        first_index_of(s, c) <= s.len(),
        forall|j: int| 0 <= j < first_index_of(s, c) ==> s[j] != c,
        first_index_of(s, c) < s.len() ==> s[first_index_of(s, c) as int] == c,
    decreases s.len(),
{
    if s.len() > 0 && s[0] != c {
        let t = s.subrange(1, s.len() as int);
        lemma_first_index_of(t, c);
        assert(forall|j: int| 1 <= j < s.len() ==> s[j] == t[j - 1]);
    }
}

/// A position that carries `c` with nothing equal to `c` before it is the
/// first occurrence; a `c`-free sequence has none.
pub proof fn lemma_first_index_at(s: Seq<char>, c: char, k: nat)
    requires
        k <= s.len(),
        forall|j: int| 0 <= j < k ==> s[j] != c,
        k < s.len() ==> s[k as int] == c,
    ensures
        first_index_of(s, c) == k,
    decreases s.len(),
{
    if s.len() > 0 && s[0] != c {
        let t = s.subrange(1, s.len() as int);
        assert(forall|j: int| 1 <= j < s.len() ==> s[j] == t[j - 1]);
        lemma_first_index_at(t, c, (k - 1) as nat);
    }
}

// ---------------------------------------------------------------------------
// Whitespace and trimming
// ---------------------------------------------------------------------------

/// ASCII whitespace. Splitting and trimming in this crate treat exactly these
/// characters as blank.
pub open spec fn is_space_char(c: char) -> bool {
    c == ' ' || c == '\t' || c == '\n' || c == '\r'
}

fn is_space(c: char) -> (b: bool)
    ensures
        b == is_space_char(c),
{
    c == ' ' || c == '\t' || c == '\n' || c == '\r'
}

/// `s` with leading ASCII whitespace removed.
pub open spec fn trim_start_spec(s: Seq<char>) -> Seq<char>
    decreases s.len(),
{
    if s.len() > 0 && is_space_char(s[0]) {
        trim_start_spec(s.subrange(1, s.len() as int))
    } else {
        s
    }
}

/// `s` with trailing ASCII whitespace removed.
pub open spec fn trim_end_spec(s: Seq<char>) -> Seq<char>
    decreases s.len(),
{
    if s.len() > 0 && is_space_char(s.last()) {
        trim_end_spec(s.drop_last())
    } else {
        s
    }
}

/// `s` with leading and trailing ASCII whitespace removed.
pub open spec fn trim_spec(s: Seq<char>) -> Seq<char> {
    trim_end_spec(trim_start_spec(s))
}

proof fn lemma_trim_start_at(s: Seq<char>, a: nat)
    requires
        a <= s.len(),
        forall|j: int| 0 <= j < a ==> is_space_char(s[j]),
        a < s.len() ==> !is_space_char(s[a as int]),
    ensures
        trim_start_spec(s) == s.subrange(a as int, s.len() as int),
    decreases s.len(),
{
    if s.len() > 0 && is_space_char(s[0]) {
        let t = s.subrange(1, s.len() as int);
        assert(forall|j: int| 1 <= j < s.len() ==> s[j] == t[j - 1]);
        lemma_trim_start_at(t, (a - 1) as nat);
        assert(t.subrange(a - 1, t.len() as int) =~= s.subrange(a as int, s.len() as int));
    } else {
        assert(trim_start_spec(s) =~= s.subrange(a as int, s.len() as int));
    }
}

proof fn lemma_trim_end_at(s: Seq<char>, b: nat)
    requires
        b <= s.len(),
        forall|j: int| b <= j < s.len() ==> is_space_char(s[j]),
        b > 0 ==> !is_space_char(s[b - 1]),
    ensures
        trim_end_spec(s) == s.subrange(0, b as int),
    decreases s.len(),
{
    if s.len() > 0 && is_space_char(s.last()) {
        lemma_trim_end_at(s.drop_last(), b);
    } else {
        assert(trim_end_spec(s) =~= s.subrange(0, b as int));
    }
}

fn first_non_space(s: &str) -> (a: usize)
    ensures
        a <= s@.len(),
        forall|j: int| 0 <= j < a ==> is_space_char(s@[j]),
        a < s@.len() ==> !is_space_char(s@[a as int]),
{
    let n = s.unicode_len();
    let mut i: usize = 0;
    while i < n
        invariant
            i <= n,
            n == s@.len(),
            forall|j: int| 0 <= j < i ==> is_space_char(s@[j]),
        decreases n - i,
    {
        if !is_space(s.get_char(i)) {
            return i;
        }
        i = i + 1;
    }
    n
}

fn last_non_space_from(s: &str, a: usize) -> (b: usize)
    requires
        a <= s@.len(),
    ensures
        a <= b <= s@.len(),
        forall|j: int| b <= j < s@.len() ==> is_space_char(s@[j]),
        b > a ==> !is_space_char(s@[b - 1]),
{
    let n = s.unicode_len();
    let mut i: usize = n;
    while i > a
        invariant
            a <= i <= n,
            n == s@.len(),
            forall|j: int| i <= j < s@.len() ==> is_space_char(s@[j]),
        decreases i,
    {
        if !is_space(s.get_char(i - 1)) {
            return i;
        }
        i = i - 1;
    }
    a
}

/// Removes leading and trailing ASCII whitespace.
pub fn trim(s: &str) -> (r: &str)
    ensures
        r@ == trim_spec(s@),
{
    let a = first_non_space(s);
    let b = last_non_space_from(s, a);
    let r = s.substring_char(a, b);
    proof {
        lemma_trim_start_at(s@, a as nat);
        let t = s@.subrange(a as int, s@.len() as int);
        assert(forall|j: int| 0 <= j < t.len() ==> t[j] == s@[a + j]);
        lemma_trim_end_at(t, (b - a) as nat);
        assert(t.subrange(0, b - a) =~= s@.subrange(a as int, b as int));
    }
    r
}

// ---------------------------------------------------------------------------
// Unsigned decimal parsing
// ---------------------------------------------------------------------------

/// The numeric value of a digit character; -1 for every other character.
pub open spec fn digit_val(c: char) -> int {
    if c == '0' {
        0
    } else if c == '1' {
        1
    } else if c == '2' {
        2
    } else if c == '3' {
        3
    } else if c == '4' {
        4
    } else if c == '5' {
        5
    } else if c == '6' {
        6
    } else if c == '7' {
        7
    } else if c == '8' {
        8
    } else if c == '9' {
        9
    } else {
        -1
    }
}

pub open spec fn is_digit_char(c: char) -> bool {
    digit_val(c) >= 0
}

pub open spec fn all_digits(s: Seq<char>) -> bool {
    forall|j: int| 0 <= j < s.len() ==> is_digit_char(s[j])
}

/// The value of a digit string, most significant digit first.
pub open spec fn digits_val(s: Seq<char>) -> int
    decreases s.len(),
{
    if s.len() == 0 {
        0
    } else {
        digits_val(s.drop_last()) * 10 + digit_val(s.last())
    }
}

/// The digit portion of a numeral: everything after an optional leading `+`.
pub open spec fn numeral_digits(s: Seq<char>) -> Seq<char> {
    if s.len() > 0 && s[0] == '+' {
        s.subrange(1, s.len() as int)
    } else {
        s
    }
}

/// Whether `s` is a decimal numeral for a value that fits in `u64`: an
/// optional `+`, then one or more digits, with the value at most `u64::MAX`.
pub open spec fn parses_as_u64(s: Seq<char>) -> bool {
    let d = numeral_digits(s);
    d.len() > 0 && all_digits(d) && digits_val(d) <= u64::MAX
}

/// The value of a numeral accepted by `parses_as_u64`.
pub open spec fn u64_numeral_val(s: Seq<char>) -> int {
    digits_val(numeral_digits(s))
}

pub proof fn lemma_digits_val_nonneg(s: Seq<char>)
    requires
        all_digits(s),
    ensures
        digits_val(s) >= 0,
    decreases s.len(),
{
    if s.len() > 0 {
        lemma_digits_val_nonneg(s.drop_last());
    }
}

/// Extending a digit string with further digits never shrinks its value.
proof fn lemma_digits_val_extend(s: Seq<char>, k: int)
    requires
        all_digits(s),
        0 <= k <= s.len(),
    ensures
        digits_val(s) >= digits_val(s.subrange(0, k)),
    decreases s.len() - k,
{
    if k < s.len() {
        lemma_digits_val_extend(s, k + 1);
        let p = s.subrange(0, k + 1);
        assert(p.drop_last() =~= s.subrange(0, k));
        lemma_digits_val_nonneg(s.subrange(0, k));
        assert(digits_val(p) == digits_val(s.subrange(0, k)) * 10 + digit_val(s[k])) by {
            assert(p.last() == s[k]);
        }
        assert(digits_val(s.subrange(0, k)) * 10 >= digits_val(s.subrange(0, k)))
            by (nonlinear_arith)
            requires
                digits_val(s.subrange(0, k)) >= 0,
        ;
    } else {
        assert(s.subrange(0, k) =~= s);
    }
}

fn digit_of(c: char) -> (r: Option<u64>)
    ensures
        match r {
            Some(v) => is_digit_char(c) && v == digit_val(c),
            None => !is_digit_char(c),
        },
{
    if c == '0' {
        Some(0)
    } else if c == '1' {
        Some(1)
    } else if c == '2' {
        Some(2)
    } else if c == '3' {
        Some(3)
    } else if c == '4' {
        Some(4)
    } else if c == '5' {
        Some(5)
    } else if c == '6' {
        Some(6)
    } else if c == '7' {
        Some(7)
    } else if c == '8' {
        Some(8)
    } else if c == '9' {
        Some(9)
    } else {
        None
    }
}

/// Parses a decimal `u64` as `str::parse::<u64>` accepts it: an optional
/// leading `+`, then one or more digits, rejecting values beyond `u64::MAX`.
pub fn parse_u64(s: &str) -> (r: Option<u64>)
    ensures
        match r {
            Some(v) => parses_as_u64(s@) && v == u64_numeral_val(s@),
            None => !parses_as_u64(s@),
        },
{
    let n = s.unicode_len();
    let start: usize = if n > 0 && s.get_char(0) == '+' {
        1
    } else {
        0
    };
    let ghost d = numeral_digits(s@);
    proof {
        assert(d =~= s@.subrange(start as int, n as int));
    }
    if start == n {
        return None;
    }
    let mut val: u64 = 0;
    let mut i: usize = start;
    while i < n
        invariant
            start <= i <= n,
            start < n,
            n == s@.len(),
            d == numeral_digits(s@),
            d == s@.subrange(start as int, n as int),
            all_digits(d.subrange(0, i - start)),
            val == digits_val(d.subrange(0, i - start)),
        decreases n - i,
    {
        let c = s.get_char(i);
        let ghost prefix = d.subrange(0, i - start);
        let ghost prefix2 = d.subrange(0, i + 1 - start);
        proof {
            assert(prefix2.drop_last() =~= prefix);
            assert(prefix2.last() == s@[i as int]);
        }
        match digit_of(c) {
            None => {
                proof {
                    assert(d[i - start] == s@[i as int]);
                    assert(!all_digits(d));
                }
                return None;
            },
            Some(dv) => {
                if val <= (u64::MAX - dv) / 10 {
                    proof {
                        assert(val * 10 + dv <= u64::MAX) by (nonlinear_arith)
                            requires
                                dv <= 9,
                                val <= (u64::MAX - dv) / 10,
                        ;
                    }
                    val = val * 10 + dv;
                } else {
                    proof {
                        assert(val * 10 + dv > u64::MAX) by (nonlinear_arith)
                            requires
                                dv >= 0,
                                val > (u64::MAX - dv) / 10,
                        ;
                        assert(digit_val(prefix2.last()) == dv);
                        assert(digits_val(prefix2) == val * 10 + dv);
                        if all_digits(d) {
                            lemma_digits_val_extend(d, i + 1 - start);
                        }
                    }
                    return None;
                }
            },
        }
        i = i + 1;
    }
    proof {
        assert(d.subrange(0, n - start) =~= d);
    }
    Some(val)
}

// ---------------------------------------------------------------------------
// Splitting
// ---------------------------------------------------------------------------

/// `s` split on every occurrence of `c`; n occurrences give n + 1 pieces,
/// empty pieces included.
pub open spec fn split_on_char(s: Seq<char>, c: char) -> Seq<Seq<char>>
    decreases s.len(),
    via split_on_char_decreases
{
    let i = first_index_of(s, c) as int;
    if i == s.len() {
        seq![s]
    } else {
        seq![s.subrange(0, i)] + split_on_char(s.subrange(i + 1, s.len() as int), c)
    }
}

#[via_fn]
proof fn split_on_char_decreases(s: Seq<char>, c: char) {
    lemma_first_index_of(s, c);
}

/// Splits `s` on `c` into owned pieces.
pub fn split_str(s: &str, c: char) -> (r: Vec<String>)
    ensures
        r@.map_values(|t: String| t@) == split_on_char(s@, c),
{
    let n = s.unicode_len();
    let mut pieces: Vec<String> = Vec::new();
    let mut seg_start: usize = 0;
    let mut i: usize = 0;
    proof {
        assert(s@.subrange(0, n as int) =~= s@);
        assert(pieces@.map_values(|t: String| t@) =~= Seq::<Seq<char>>::empty());
        assert(Seq::<Seq<char>>::empty() + split_on_char(s@, c) =~= split_on_char(s@, c));
    }
    while i < n
        invariant
            seg_start <= i <= n,
            n == s@.len(),
            forall|j: int| seg_start <= j < i ==> s@[j] != c,
            split_on_char(s@, c) == pieces@.map_values(|t: String| t@) + split_on_char(
                s@.subrange(seg_start as int, n as int),
                c,
            ),
        decreases n - i,
    {
        if s.get_char(i) == c {
            let piece = s.substring_char(seg_start, i);
            let ghost rest = s@.subrange(seg_start as int, n as int);
            let ghost tail = s@.subrange(i + 1, n as int);
            let ghost old_views = pieces@.map_values(|t: String| t@);
            proof {
                assert(forall|j: int| 0 <= j < rest.len() ==> rest[j] == s@[seg_start + j]);
                lemma_first_index_at(rest, c, (i - seg_start) as nat);
                assert(rest.subrange(0, i - seg_start) =~= piece@);
                assert(rest.subrange(i - seg_start + 1, rest.len() as int) =~= tail);
                assert(split_on_char(rest, c) == seq![piece@] + split_on_char(tail, c));
            }
            let owned = String::from_str(piece);
            pieces.push(owned);
            proof {
                let new_views = pieces@.map_values(|t: String| t@);
                assert(new_views =~= old_views.push(piece@));
                assert(old_views + (seq![piece@] + split_on_char(tail, c)) =~= old_views.push(
                    piece@,
                ) + split_on_char(tail, c));
            }
            seg_start = i + 1;
        }
        i = i + 1;
    }
    let piece = s.substring_char(seg_start, n);
    let ghost rest = s@.subrange(seg_start as int, n as int);
    let ghost old_views = pieces@.map_values(|t: String| t@);
    proof {
        assert(forall|j: int| 0 <= j < rest.len() ==> rest[j] == s@[seg_start + j]);
        lemma_first_index_at(rest, c, (n - seg_start) as nat);
        assert(split_on_char(rest, c) == seq![rest]);
        assert(piece@ == rest);
    }
    let owned = String::from_str(piece);
    pieces.push(owned);
    proof {
        assert(pieces@.map_values(|t: String| t@) =~= old_views.push(rest));
        assert(old_views + seq![rest] =~= old_views.push(rest));
    }
    pieces
}

} // verus!
