//! Text helpers with exact contracts: equality, concatenation, decimal
//! rendering and the dotted-name conventions of qualified columns.
use vstd::prelude::*;
use vstd::string::*;

verus! {

/// Whether two string slices hold the same characters.
pub fn same_text(a: &str, b: &str) -> (r: bool)
    ensures
        r == (a@ == b@),
{
    a.to_owned() == b.to_owned()
}

/// The two texts one after the other.
pub fn join_text(a: &str, b: &str) -> (r: String)
    ensures
        r@ == a@ + b@,
{
    let mut out: String = a.to_owned();
    out.append(b);
    out
}

/// Three texts one after the other.
pub fn join_text3(a: &str, b: &str, c: &str) -> (r: String)
    ensures
        r@ == a@ + b@ + c@,
{
    let mut out: String = a.to_owned();
    out.append(b);
    out.append(c);
    out
}

/// The decimal digit for a value below ten.
pub open spec fn digit(d: nat) -> char {
    if d == 0 {
        '0'
    } else if d == 1 {
        '1'
    } else if d == 2 {
        '2'
    } else if d == 3 {
        '3'
    } else if d == 4 {
        '4'
    } else if d == 5 {
        '5'
    } else if d == 6 {
        '6'
    } else if d == 7 {
        '7'
    } else if d == 8 {
        '8'
    } else {
        '9'
    }
}

/// Decimal rendering of a natural number, without leading zeros.
pub open spec fn decimal(n: nat) -> Seq<char>
    decreases n,
{
    if n < 10 {
        seq![digit(n)]
    } else {
        decimal(n / 10).push(digit(n % 10))
    }
}

/// Decimal rendering of an integer.
pub open spec fn signed_decimal(n: int) -> Seq<char> {
    if n < 0 {
        "-"@ + decimal((-n) as nat)
    } else {
        decimal(n as nat)
    }
}

/// Different numbers differ in decimal.
pub proof fn lemma_decimal_injective(a: nat, b: nat)
    requires
        decimal(a) == decimal(b),
    ensures
        a == b,
    decreases a,
{
    if a < 10 && b < 10 {
        assert(decimal(a)[0] == digit(a));
        assert(decimal(b)[0] == digit(b));
    } else if a < 10 {
        lemma_decimal_len(b / 10);
        assert(decimal(b).len() == decimal(b / 10).len() + 1);
    } else if b < 10 {
        lemma_decimal_len(a / 10);
        assert(decimal(a).len() == decimal(a / 10).len() + 1);
    } else {
        assert(decimal(a).last() == digit(a % 10));
        assert(decimal(b).last() == digit(b % 10));
        assert(decimal(a).drop_last() =~= decimal(a / 10));
        assert(decimal(b).drop_last() =~= decimal(b / 10));
        lemma_decimal_injective(a / 10, b / 10);
    }
}

proof fn lemma_decimal_len(n: nat)
    ensures
        decimal(n).len() > 0,
{
}

fn digit_text(d: u128) -> (r: &'static str)
    requires
        d < 10,
    ensures
        r@ == seq![digit(d as nat)],
{
    proof {
        reveal_strlit("0");
        reveal_strlit("1");
        reveal_strlit("2");
        reveal_strlit("3");
        reveal_strlit("4");
        reveal_strlit("5");
        reveal_strlit("6");
        reveal_strlit("7");
        reveal_strlit("8");
        reveal_strlit("9");
    }
    if d == 0 {
        "0"
    } else if d == 1 {
        "1"
    } else if d == 2 {
        "2"
    } else if d == 3 {
        "3"
    } else if d == 4 {
        "4"
    } else if d == 5 {
        "5"
    } else if d == 6 {
        "6"
    } else if d == 7 {
        "7"
    } else if d == 8 {
        "8"
    } else {
        "9"
    }
}

/// Renders `n` in decimal.
pub fn decimal_text(n: usize) -> (r: String)
    ensures
        r@ == decimal(n as nat),
{
    wide_decimal_text(n as u128)
}

/// Renders `n` in decimal.
pub fn wide_decimal_text(n: u128) -> (r: String)
    ensures
        r@ == decimal(n as nat),
    decreases n,
{
    if n < 10 {
        digit_text(n).to_owned()
    } else {
        let mut out: String = wide_decimal_text(n / 10);
        out.append(digit_text(n % 10));
        assert(out@ =~= decimal((n / 10) as nat).push(digit((n % 10) as nat)));
        out
    }
}

/// Position of the last occurrence of `c`, or `-1`.
pub open spec fn last_index_of(s: Seq<char>, c: char) -> int
    decreases s.len(),
{
    if s.len() == 0 {
        -1
    } else if s.last() == c {
        s.len() - 1
    } else {
        last_index_of(s.drop_last(), c)
    }
}

/// Position of the last occurrence of `c` in `s`.
pub fn find_last(s: &str, c: char) -> (r: Option<usize>)
    ensures
        match r {
            Some(i) => i == last_index_of(s@, c) && i < s@.len(),
            None => last_index_of(s@, c) == -1,
        },
{
    let n: usize = s.unicode_len();
    let mut i: usize = n;
    assert(s@.take(n as int) =~= s@);
    while i > 0
        invariant
            i <= n,
            n == s@.len(),
            last_index_of(s@.take(i as int), c) == last_index_of(s@, c),
        decreases i,
    {
        proof {
            assert(s@.take(i as int).last() == s@[i - 1]);
            assert(s@.take(i as int).drop_last() =~= s@.take(i - 1));
        }
        if s.get_char(i - 1) == c {
            return Some(i - 1);
        }
        i = i - 1;
    }
    None
}

/// The characters after the last dot; the whole name when it has no dot.
pub open spec fn after_last_dot(s: Seq<char>) -> Seq<char> {
    let i = last_index_of(s, '.');
    s.skip(i + 1)
}

/// `last_index_of` lies within the sequence.
pub proof fn lemma_last_index_bounds(s: Seq<char>, c: char)
    ensures
        -1 <= last_index_of(s, c) < s.len(),
        last_index_of(s, c) >= 0 ==> s[last_index_of(s, c)] == c,
        forall|j: int| last_index_of(s, c) < j < s.len() ==> s[j] != c,
    decreases s.len(),
{
    if s.len() > 0 && s.last() != c {
        lemma_last_index_bounds(s.drop_last(), c);
        assert forall|j: int| last_index_of(s, c) < j < s.len() implies s[j] != c by {
            if j < s.len() - 1 {
                assert(s.drop_last()[j] == s[j]);
            }
        }
    }
}

/// The part of a dotted name behind its last dot.
pub fn last_segment(s: &str) -> (r: String)
    ensures
        r@ == after_last_dot(s@),
{
    proof {
        lemma_last_index_bounds(s@, '.');
    }
    match find_last(s, '.') {
        Some(i) => {
            let n: usize = s.unicode_len();
            let tail = s.substring_char(i + 1, n);
            assert(tail@ =~= after_last_dot(s@));
            tail.to_owned()
        },
        None => {
            assert(after_last_dot(s@) =~= s@);
            s.to_owned()
        },
    }
}

/// The part of a dotted name before its last dot, when it has one.
pub open spec fn before_last_dot(s: Seq<char>) -> Option<Seq<char>> {
    let i = last_index_of(s, '.');
    if i < 0 {
        None
    } else {
        Some(s.take(i))
    }
}

/// The part of a dotted name before its last dot.
pub fn name_prefix(s: &str) -> (r: Option<String>)
    ensures
        match (r, before_last_dot(s@)) {
            (Some(p), Some(v)) => p@ == v,
            (None, None) => true,
            _ => false,
        },
{
    match find_last(s, '.') {
        Some(i) => {
            let head = s.substring_char(0, i);
            assert(head@ =~= s@.take(i as int));
            Some(head.to_owned())
        },
        None => None,
    }
}

/// Whether `s` begins with `prefix`.
pub open spec fn has_prefix(s: Seq<char>, prefix: Seq<char>) -> bool {
    prefix.len() <= s.len() && s.take(prefix.len() as int) == prefix
}

/// Whether `s` ends with `suffix`.
pub open spec fn has_suffix(s: Seq<char>, suffix: Seq<char>) -> bool {
    suffix.len() <= s.len() && s.skip(s.len() - suffix.len()) == suffix
}

/// Whether `s` begins with `prefix`.
pub fn begins_with(s: &str, prefix: &str) -> (r: bool)
    ensures
        r == has_prefix(s@, prefix@),
{
    let n: usize = s.unicode_len();
    let m: usize = prefix.unicode_len();
    if m > n {
        return false;
    }
    let head = s.substring_char(0, m);
    assert(head@ =~= s@.take(m as int));
    same_text(head, prefix)
}

/// The text in front of `suffix`, when `s` ends with it.
pub fn without_suffix(s: &str, suffix: &str) -> (r: Option<String>)
    ensures
        match r {
            Some(base) => has_suffix(s@, suffix@) && base@ == s@.take(s@.len() - suffix@.len()),
            None => !has_suffix(s@, suffix@),
        },
{
    let n: usize = s.unicode_len();
    let m: usize = suffix.unicode_len();
    if m > n {
        return None;
    }
    let tail = s.substring_char(n - m, n);
    assert(tail@ =~= s@.skip(n - m));
    if same_text(tail, suffix) {
        let head = s.substring_char(0, n - m);
        assert(head@ =~= s@.take(n - m));
        Some(head.to_owned())
    } else {
        None
    }
}

/// The text behind `prefix`, when `s` begins with it.
pub fn without_prefix(s: &str, prefix: &str) -> (r: Option<String>)
    ensures
        match r {
            Some(rest) => has_prefix(s@, prefix@) && rest@ == s@.skip(prefix@.len() as int),
            None => !has_prefix(s@, prefix@),
        },
{
    if begins_with(s, prefix) {
        let n: usize = s.unicode_len();
        let m: usize = prefix.unicode_len();
        let tail = s.substring_char(m, n);
        assert(tail@ =~= s@.skip(m as int));
        Some(tail.to_owned())
    } else {
        None
    }
}

/// The text without the run of `c` that it begins with.
pub open spec fn without_leading(s: Seq<char>, c: char) -> Seq<char>
    decreases s.len(),
{
    if s.len() > 0 && s[0] == c {
        without_leading(s.drop_first(), c)
    } else {
        s
    }
}

/// The text without the run of `c` that it ends with.
pub open spec fn without_trailing(s: Seq<char>, c: char) -> Seq<char>
    decreases s.len(),
{
    if s.len() > 0 && s.last() == c {
        without_trailing(s.drop_last(), c)
    } else {
        s
    }
}

/// The text without the runs of `c` at its two ends.
pub open spec fn trimmed(s: Seq<char>, c: char) -> Seq<char> {
    without_trailing(without_leading(s, c), c)
}

/// The text without the runs of `c` at its two ends.
pub fn trim_char(s: &str, c: char) -> (r: String)
    ensures
        r@ == trimmed(s@, c),
{
    let n: usize = s.unicode_len();
    let mut i: usize = 0;
    assert(s@.skip(0) =~= s@);
    while i < n && s.get_char(i) == c
        invariant
            i <= n,
            n == s@.len(),
            without_leading(s@.skip(i as int), c) == without_leading(s@, c),
        decreases n - i,
    {
        assert(s@.skip(i as int).drop_first() =~= s@.skip(i + 1));
        i = i + 1;
    }
    let ghost head = s@.skip(i as int);
    assert(without_leading(s@, c) == head);
    let mut j: usize = n;
    assert(head.take(n - i) =~= head);
    while i < j && s.get_char(j - 1) == c
        invariant
            i <= j <= n,
            n == s@.len(),
            head == s@.skip(i as int),
            without_trailing(head.take(j - i), c) == without_trailing(head, c),
        decreases j - i,
    {
        assert(head.take(j - i).drop_last() =~= head.take(j - 1 - i));
        assert(head.take(j - i).last() == s@[j - 1]);
        j = j - 1;
    }
    assert(head.take(j - i) =~= s@.subrange(i as int, j as int));
    assert(i < j ==> head.take(j - i).last() == s@[j - 1]);
    s.substring_char(i, j).to_owned()
}

/// Whether every character of a text is an ASCII character.
pub open spec fn is_ascii_text(s: Seq<char>) -> bool {
    forall|i: int| 0 <= i < s.len() ==> (#[trigger] s[i]) as int <= 127
}

/// An ASCII character in lower case.
pub open spec fn ascii_lower(c: char) -> char {
    if 'A' <= c <= 'Z' {
        (c as int + 32) as char
    } else {
        c
    }
}

/// An ASCII character in upper case.
pub open spec fn ascii_upper(c: char) -> char {
    if 'a' <= c <= 'z' {
        (c as int - 32) as char
    } else {
        c
    }
}

/// An ASCII text in lower case.
pub open spec fn ascii_lowered(s: Seq<char>) -> Seq<char> {
    Seq::new(s.len(), |i: int| ascii_lower(s[i]))
}

/// An ASCII text in upper case.
pub open spec fn ascii_uppered(s: Seq<char>) -> Seq<char> {
    Seq::new(s.len(), |i: int| ascii_upper(s[i]))
}

/// What [`lowercase`] returns.
pub uninterp spec fn unicode_lowercased(s: Seq<char>) -> Seq<char>;

/// Calls `str::to_lowercase`: the lower-case equivalent of the text by the
/// Unicode derived property. The contract claims that it depends on the text
/// alone, and that in an ASCII text the letters from A to Z become those from
/// a to z and everything else stays.
#[verifier::external_body]
pub(crate) fn lowercase(s: &str) -> (r: String)
    ensures
        r@ == unicode_lowercased(s@),
        is_ascii_text(s@) ==> r@ == ascii_lowered(s@),
{
    s.to_lowercase()
}

/// A text in lower case.
pub open spec fn lowercased(s: Seq<char>) -> Seq<char> {
    if is_ascii_text(s) {
        ascii_lowered(s)
    } else {
        unicode_lowercased(s)
    }
}

/// Lower case keeps what is no letter apart, and is the same for both cases of
/// a letter.
proof fn lemma_ascii_lower(c: char)
    ensures
        ascii_lower(ascii_lower(c)) == ascii_lower(c),
        ascii_lower(ascii_upper(c)) == ascii_lower(c),
        c as int <= 127 ==> ascii_lower(c) as int <= 127 && ascii_upper(c) as int <= 127,
        (ascii_lower(c) == '.') == (c == '.'),
        (ascii_lower(c) == '"') == (c == '"'),
        (ascii_lower(c) == '`') == (c == '`'),
{
}

/// Lower case applied twice is lower case.
pub proof fn lower_case_is_stable(s: Seq<char>)
    requires
        is_ascii_text(s),
    ensures
        is_ascii_text(lowercased(s)),
        lowercased(lowercased(s)) == lowercased(s),
{
    let t = ascii_lowered(s);
    assert forall|i: int| 0 <= i < t.len() implies (#[trigger] t[i]) as int <= 127
        && ascii_lower(t[i]) == t[i] by {
        lemma_ascii_lower(s[i]);
        assert(s[i] as int <= 127);
    }
    assert(ascii_lowered(t) =~= t);
}

/// A text and the same text in upper case are the same in lower case.
pub proof fn upper_case_is_read_alike(s: Seq<char>)
    requires
        is_ascii_text(s),
    ensures
        is_ascii_text(ascii_uppered(s)),
        lowercased(ascii_uppered(s)) == lowercased(s),
{
    let t = ascii_uppered(s);
    assert forall|i: int| 0 <= i < t.len() implies (#[trigger] t[i]) as int <= 127 && ascii_lower(
        t[i],
    ) == ascii_lower(s[i]) by {
        lemma_ascii_lower(s[i]);
        assert(s[i] as int <= 127);
    }
    assert(ascii_lowered(t) =~= ascii_lowered(s));
}

/// What stands behind the last dot does not depend on what is put in front
/// with a dot.
pub proof fn lemma_prefix_is_dropped(p: Seq<char>, t: Seq<char>)
    ensures
        after_last_dot(p + "."@ + t) == after_last_dot(t),
{
    reveal_strlit(".");
    let s = p + "."@ + t;
    lemma_last_index_bounds(s, '.');
    lemma_last_index_bounds(t, '.');
    let i = last_index_of(s, '.');
    let j = last_index_of(t, '.');
    let n = p.len() + 1;
    assert(s[p.len() as int] == '.');
    if j >= 0 {
        assert(s[n + j] == t[j]);
        if i > n + j {
            assert(s[i] == t[i - n]);
        }
    } else if i >= n {
        assert(s[i] == t[i - n]);
    }
    assert(i == n + j);
    assert(s.skip(i + 1) =~= t.skip(j + 1));
}

/// The part behind the last dot of a text holds no dot, and is found in lower
/// case too.
pub proof fn lemma_lower_last_segment(s: Seq<char>)
    ensures
        is_ascii_text(s) ==> is_ascii_text(after_last_dot(s)),
        after_last_dot(ascii_lowered(s)) == ascii_lowered(after_last_dot(s)),
        forall|i: int|
            0 <= i < after_last_dot(s).len() ==> (#[trigger] after_last_dot(s)[i]) != '.',
{
    let t = ascii_lowered(s);
    lemma_last_index_bounds(s, '.');
    lemma_last_index_bounds(t, '.');
    let i = last_index_of(s, '.');
    let j = last_index_of(t, '.');
    if i >= 0 {
        lemma_ascii_lower(s[i]);
        assert(t[i] == '.');
    }
    if j >= 0 {
        lemma_ascii_lower(s[j]);
        assert(s[j] == '.');
    }
    assert(i == j);
    let rest = after_last_dot(s);
    assert forall|k: int| 0 <= k < rest.len() implies (#[trigger] rest[k]) == s[i + 1 + k]
        && rest[k] != '.' by {}
    assert(after_last_dot(t) =~= ascii_lowered(rest));
}

/// Whether `c` is a character that trimming removes from a table's name.
pub open spec fn is_quote(c: char) -> bool {
    c == '"' || c == '`'
}

proof fn lemma_lower_leading(s: Seq<char>, c: char)
    requires
        is_quote(c),
    ensures
        is_ascii_text(s) ==> is_ascii_text(without_leading(s, c)),
        without_leading(ascii_lowered(s), c) == ascii_lowered(without_leading(s, c)),
        without_leading(s, c).len() > 0 ==> without_leading(s, c)[0] != c,
        exists|k: int| 0 <= k <= s.len() && without_leading(s, c) == #[trigger] s.skip(k),
    decreases s.len(),
{
    if s.len() > 0 {
        lemma_ascii_lower(s[0]);
        assert(ascii_lowered(s)[0] == ascii_lower(s[0]));
    }
    if s.len() > 0 && s[0] == c {
        let t = s.drop_first();
        assert(forall|i: int| 0 <= i < t.len() ==> (#[trigger] t[i]) == s[i + 1]);
        lemma_lower_leading(t, c);
        assert(ascii_lowered(s).drop_first() =~= ascii_lowered(t));
        let k = choose|k: int| 0 <= k <= t.len() && without_leading(t, c) == #[trigger] t.skip(k);
        assert(t.skip(k) =~= s.skip(k + 1));
    } else {
        assert(s.skip(0) =~= s);
    }
}

proof fn lemma_lower_trailing(s: Seq<char>, c: char)
    requires
        is_quote(c),
    ensures
        is_ascii_text(s) ==> is_ascii_text(without_trailing(s, c)),
        without_trailing(ascii_lowered(s), c) == ascii_lowered(without_trailing(s, c)),
        without_trailing(s, c).len() > 0 ==> without_trailing(s, c).last() != c,
        exists|k: int| 0 <= k <= s.len() && without_trailing(s, c) == #[trigger] s.take(k),
    decreases s.len(),
{
    if s.len() > 0 {
        lemma_ascii_lower(s.last());
        assert(ascii_lowered(s).last() == ascii_lower(s.last()));
    }
    if s.len() > 0 && s.last() == c {
        let t = s.drop_last();
        assert(forall|i: int| 0 <= i < t.len() ==> (#[trigger] t[i]) == s[i]);
        lemma_lower_trailing(t, c);
        assert(ascii_lowered(s).drop_last() =~= ascii_lowered(t));
        let k = choose|k: int| 0 <= k <= t.len() && without_trailing(t, c) == #[trigger] t.take(k);
        assert(t.take(k) =~= s.take(k));
    } else {
        assert(s.take(s.len() as int) =~= s);
    }
}

/// Trimming a text: it commutes with lower case, leaves a part of the text, and
/// leaves nothing to trim.
pub proof fn lemma_lower_trimmed(s: Seq<char>, c: char)
    requires
        is_quote(c),
    ensures
        is_ascii_text(s) ==> is_ascii_text(trimmed(s, c)),
        trimmed(ascii_lowered(s), c) == ascii_lowered(trimmed(s, c)),
        trimmed(s, c).len() > 0 ==> trimmed(s, c)[0] != c && trimmed(s, c).last() != c,
        forall|i: int| 0 <= i < trimmed(s, c).len() ==> s.contains(#[trigger] trimmed(s, c)[i]),
{
    lemma_lower_leading(s, c);
    let head = without_leading(s, c);
    lemma_lower_trailing(head, c);
    let a = choose|k: int| 0 <= k <= s.len() && head == #[trigger] s.skip(k);
    let r = trimmed(s, c);
    let b = choose|k: int| 0 <= k <= head.len() && r == #[trigger] head.take(k);
    assert(r =~= head.take(b));
    assert forall|i: int| 0 <= i < r.len() implies s.contains(#[trigger] r[i]) by {
        assert(r[i] == head.take(b)[i]);
        assert(head.take(b)[i] == s.skip(a)[i]);
        assert(r[i] == s[a + i]);
    }
    if r.len() > 0 {
        assert(r[0] == head[0]);
    }
}

/// Lower case keeps the ends of a text apart from quotes, and dots out of it.
pub proof fn lemma_lower_marks(s: Seq<char>)
    ensures
        forall|i: int|
            0 <= i < s.len() ==> ((#[trigger] ascii_lowered(s)[i]) == '.') == (s[i] == '.') && (
            ascii_lowered(s)[i] == '`') == (s[i] == '`'),
{
    assert forall|i: int| 0 <= i < s.len() implies ((#[trigger] ascii_lowered(s)[i]) == '.') == (
    s[i] == '.') && (ascii_lowered(s)[i] == '`') == (s[i] == '`') by {
        lemma_ascii_lower(s[i]);
    }
}

/// A name is the part before its last dot, the dot, and the part behind it,
/// which holds no dot; a name without a dot is all behind it.
pub proof fn names_split_at_their_last_dot(s: Seq<char>)
    ensures
        forall|i: int| 0 <= i < after_last_dot(s).len() ==> #[trigger] after_last_dot(s)[i] != '.',
        match before_last_dot(s) {
            Some(p) => s == p + seq!['.'] + after_last_dot(s),
            None => after_last_dot(s) == s,
        },
{
    lemma_last_index_bounds(s, '.');
    let at = last_index_of(s, '.');
    if at >= 0 {
        assert(s =~= s.take(at) + seq!['.'] + s.skip(at + 1));
    } else {
        assert(s.skip(0) =~= s);
    }
}

} // verus!
