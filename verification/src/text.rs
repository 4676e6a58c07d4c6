use vstd::prelude::*;

verus! {

/// Unicode `White_Space` code points, the set that `char::is_whitespace`
/// and `str::trim` use.
pub open spec fn is_white_space(c: char) -> bool {
    let u = c as u32;
    ||| 0x09 <= u <= 0x0D
    ||| u == 0x20
    ||| u == 0x85
    ||| u == 0xA0
    ||| u == 0x1680
    ||| 0x2000 <= u <= 0x200A
    ||| u == 0x2028
    ||| u == 0x2029
    ||| u == 0x202F
    ||| u == 0x205F
    ||| u == 0x3000
}

/// `s` without its leading white space.
pub open spec fn trim_start(s: Seq<char>) -> Seq<char>
    decreases s.len(),
{
    if s.len() > 0 && is_white_space(s[0]) {
        trim_start(s.drop_first())
    } else {
        s
    }
}

/// `s` without its trailing white space.
pub open spec fn trim_end(s: Seq<char>) -> Seq<char>
    decreases s.len(),
{
    if s.len() > 0 && is_white_space(s.last()) {
        trim_end(s.drop_last())
    } else {
        s
    }
}

/// `s` without leading and trailing white space, as `str::trim` gives it.
pub open spec fn trim(s: Seq<char>) -> Seq<char> {
    trim_end(trim_start(s))
}

pub open spec fn is_ascii_lower(c: char) -> bool {
    'a' <= c <= 'z'
}

pub open spec fn is_ascii_upper(c: char) -> bool {
    'A' <= c <= 'Z'
}

/// `char::to_ascii_uppercase`.
pub open spec fn ascii_upper(c: char) -> char {
    if is_ascii_lower(c) {
        ((c as u32) - 32) as char
    } else {
        c
    }
}

/// `char::to_ascii_lowercase`.
pub open spec fn ascii_lower(c: char) -> char {
    if is_ascii_upper(c) {
        ((c as u32) + 32) as char
    } else {
        c
    }
}

/// `str::to_ascii_uppercase`, on characters.
pub open spec fn upper(s: Seq<char>) -> Seq<char> {
    s.map_values(|c: char| ascii_upper(c))
}

/// `str::to_ascii_lowercase`, on characters.
pub open spec fn lower(s: Seq<char>) -> Seq<char> {
    s.map_values(|c: char| ascii_lower(c))
}

pub open spec fn is_ascii_digit(c: char) -> bool {
    '0' <= c <= '9'
}

/// The characters `'0'` to `'9'`, by value.
pub const DIGITS: [char; 10] = ['0', '1', '2', '3', '4', '5', '6', '7', '8', '9'];

/// The one-character strings `"0"` to `"9"`, by value.
pub const DIGIT_STRS: [&'static str; 10] = ["0", "1", "2", "3", "4", "5", "6", "7", "8", "9"];

/// Decimal digits of `n`, most significant first, without leading zeros.
pub open spec fn digits_text(n: nat) -> Seq<char>
    decreases n,
{
    if n < 10 {
        seq![DIGITS[n as int]]
    } else {
        digits_text(n / 10).push(DIGITS[(n % 10) as int])
    }
}

/// `i` written in decimal, with a leading `'-'` when it is negative, as
/// `format!("{}", i)` writes an integer.
pub open spec fn decimal_text(i: int) -> Seq<char> {
    if i < 0 {
        seq!['-'] + digits_text((-i) as nat)
    } else {
        digits_text(i as nat)
    }
}

/// The value of a run of decimal digits.
pub open spec fn digits_value(s: Seq<char>) -> int
    decreases s.len(),
{
    if s.len() == 0 {
        0
    } else {
        digits_value(s.drop_last()) * 10 + (s.last() as int - '0' as int)
    }
}

pub open spec fn all_digits(s: Seq<char>) -> bool {
    forall|i: int| 0 <= i < s.len() ==> is_ascii_digit(#[trigger] s[i])
}

/// What `str::parse::<i32>` gives: an optional `'+'` or `'-'`, then at least
/// one decimal digit and nothing else, with a value that fits in `i32`.
pub open spec fn parse_i32_text(s: Seq<char>) -> Option<i32> {
    let signed = s.len() > 0 && (s[0] == '+' || s[0] == '-');
    let body = if signed { s.drop_first() } else { s };
    let value = if signed && s[0] == '-' { -digits_value(body) } else { digits_value(body) };
    if body.len() == 0 || !all_digits(body) {
        None
    } else if i32::MIN <= value <= i32::MAX {
        Some(value as i32)
    } else {
        None
    }
}

/// The characters of `s`, in order.
pub fn chars_of(s: &str) -> (v: Vec<char>)
    ensures
        v@ == s@,
{
    let mut v: Vec<char> = Vec::new();
    for c in it: s.chars()
        invariant
            v@ == it.seq().take(it.index() as int),
            it.seq() == s@,
    {
        v.push(c);
    }
    v
}

/// Whether the characters in `v` are those of `s`.
pub fn chars_equal(v: &Vec<char>, s: &str) -> (r: bool)
    ensures
        r == (v@ == s@),
{
    let w = chars_of(s);
    if v.len() != w.len() {
        return false;
    }
    let mut i: usize = 0;
    while i < v.len()
        invariant
            v@.len() == w@.len(),
            w@ == s@,
            i <= v@.len(),
            forall|j: int| 0 <= j < i ==> v@[j] == w@[j],
        decreases v@.len() - i,
    {
        if v[i] != w[i] {
            return false;
        }
        i = i + 1;
    }
    assert(v@ =~= w@);
    true
}

/// `char::is_whitespace`.
pub fn is_white_space_char(c: char) -> (r: bool)
    ensures
        r == is_white_space(c),
{
    let u = c as u32;
    (0x09 <= u && u <= 0x0D) || u == 0x20 || u == 0x85 || u == 0xA0 || u == 0x1680 || (0x2000
        <= u && u <= 0x200A) || u == 0x2028 || u == 0x2029 || u == 0x202F || u == 0x205F || u
        == 0x3000
}

proof fn lemma_trim_start_skip(s: Seq<char>, i: int)
    requires
        0 <= i <= s.len(),
        forall|k: int| 0 <= k < i ==> is_white_space(#[trigger] s[k]),
        i == s.len() || !is_white_space(s[i]),
    ensures
        trim_start(s) == s.skip(i),
    decreases i,
{
    if i == 0 {
        assert(s.skip(0) =~= s);
    } else {
        let t = s.drop_first();
        assert forall|k: int| 0 <= k < i - 1 implies is_white_space(#[trigger] t[k]) by {
            assert(t[k] == s[k + 1]);
        }
        lemma_trim_start_skip(t, i - 1);
        assert(t.skip(i - 1) =~= s.skip(i));
    }
}

proof fn lemma_trim_end_take(s: Seq<char>, j: int)
    requires
        0 <= j <= s.len(),
        forall|k: int| j <= k < s.len() ==> is_white_space(#[trigger] s[k]),
        j == 0 || !is_white_space(s[j - 1]),
    ensures
        trim_end(s) == s.take(j),
    decreases s.len() - j,
{
    if j == s.len() {
        assert(s.take(j) =~= s);
    } else {
        let t = s.drop_last();
        assert forall|k: int| j <= k < t.len() implies is_white_space(#[trigger] t[k]) by {
            assert(t[k] == s[k]);
        }
        lemma_trim_end_take(t, j);
        assert(t.take(j) =~= s.take(j));
    }
}

/// `str::trim` on characters: the run between the first and the last
/// character that is not white space.
pub fn trim_chars(v: &Vec<char>) -> (r: Vec<char>)
    ensures
        r@ == trim(v@),
{
    let n = v.len();
    let mut i: usize = 0;
    while i < n && is_white_space_char(v[i])
        invariant
            n == v@.len(),
            i <= n,
            forall|k: int| 0 <= k < i ==> is_white_space(#[trigger] v@[k]),
        decreases n - i,
    {
        i = i + 1;
    }
    let mut j: usize = n;
    while j > i && is_white_space_char(v[j - 1])
        invariant
            n == v@.len(),
            i <= j <= n,
            forall|k: int| j <= k < n ==> is_white_space(#[trigger] v@[k]),
        decreases j,
    {
        j = j - 1;
    }
    proof {
        lemma_trim_start_skip(v@, i as int);
        let t = v@.skip(i as int);
        assert forall|k: int| j - i <= k < t.len() implies is_white_space(#[trigger] t[k]) by {
            assert(t[k] == v@[k + i]);
        }
        if j > i {
            assert(t[j - i - 1] == v@[j - 1]);
        }
        lemma_trim_end_take(t, j - i);
        assert(t.take(j - i) =~= v@.subrange(i as int, j as int));
    }
    let mut r: Vec<char> = Vec::new();
    let mut k: usize = i;
    while k < j
        invariant
            n == v@.len(),
            i <= k <= j <= n,
            r@ == v@.subrange(i as int, k as int),
        decreases j - k,
    {
        r.push(v[k]);
        k = k + 1;
        assert(r@ =~= v@.subrange(i as int, k as int));
    }
    r
}

/// `char::to_ascii_uppercase`.
pub fn ascii_upper_char(c: char) -> (r: char)
    ensures
        r == ascii_upper(c),
{
    if 'a' <= c && c <= 'z' {
        ((c as u8) - 32) as char
    } else {
        c
    }
}

/// `char::to_ascii_lowercase`.
pub fn ascii_lower_char(c: char) -> (r: char)
    ensures
        r == ascii_lower(c),
{
    if 'A' <= c && c <= 'Z' {
        ((c as u8) + 32) as char
    } else {
        c
    }
}

/// `str::to_ascii_uppercase` on characters.
pub fn upper_chars(v: &Vec<char>) -> (r: Vec<char>)
    ensures
        r@ == upper(v@),
{
    let mut r: Vec<char> = Vec::new();
    let mut i: usize = 0;
    while i < v.len()
        invariant
            i <= v@.len(),
            r@ == upper(v@.take(i as int)),
        decreases v@.len() - i,
    {
        r.push(ascii_upper_char(v[i]));
        i = i + 1;
        assert(r@ =~= upper(v@.take(i as int)));
    }
    assert(v@.take(i as int) =~= v@);
    r
}

/// `str::to_ascii_lowercase` on characters.
pub fn lower_chars(v: &Vec<char>) -> (r: Vec<char>)
    ensures
        r@ == lower(v@),
{
    let mut r: Vec<char> = Vec::new();
    let mut i: usize = 0;
    while i < v.len()
        invariant
            i <= v@.len(),
            r@ == lower(v@.take(i as int)),
        decreases v@.len() - i,
    {
        r.push(ascii_lower_char(v[i]));
        i = i + 1;
        assert(r@ =~= lower(v@.take(i as int)));
    }
    assert(v@.take(i as int) =~= v@);
    r
}


proof fn lemma_digits_value_step(s: Seq<char>, k: int)
    requires
        0 <= k < s.len(),
        all_digits(s),
    ensures
        digits_value(s.take(k + 1)) == digits_value(s.take(k)) * 10 + (s[k] as int - '0' as int),
        digits_value(s.take(k)) >= 0,
{
    assert(s.take(k + 1).drop_last() =~= s.take(k));
    lemma_digits_value_nonneg(s.take(k));
}

proof fn lemma_digits_value_nonneg(s: Seq<char>)
    requires
        all_digits(s),
    ensures
        digits_value(s) >= 0,
    decreases s.len(),
{
    if s.len() > 0 {
        assert(is_ascii_digit(s[s.len() - 1]));
        lemma_digits_value_nonneg(s.drop_last());
    }
}

/// Whether every character of `v` from `start` on is a decimal digit.
fn digits_from(v: &Vec<char>, start: usize) -> (r: bool)
    requires
        start <= v@.len(),
    ensures
        r == all_digits(v@.skip(start as int)),
{
    let n = v.len();
    let mut i: usize = start;
    while i < n
        invariant
            n == v@.len(),
            start <= i <= n,
            forall|k: int| start <= k < i ==> is_ascii_digit(#[trigger] v@[k]),
        decreases n - i,
    {
        if !('0' <= v[i] && v[i] <= '9') {
            assert(v@.skip(start as int)[i - start] == v@[i as int]);
            return false;
        }
        i = i + 1;
    }
    assert forall|k: int| 0 <= k < v@.skip(start as int).len() implies is_ascii_digit(
        #[trigger] v@.skip(start as int)[k],
    ) by {
        assert(v@.skip(start as int)[k] == v@[k + start]);
    }
    true
}

/// `str::parse::<i32>` on the characters of `v`.
pub fn parse_i32_chars(v: &Vec<char>) -> (r: Option<i32>)
    ensures
        r == parse_i32_text(v@),
{
    let n = v.len();
    let signed = n > 0 && (v[0] == '+' || v[0] == '-');
    let negative = signed && v[0] == '-';
    let start: usize = if signed { 1 } else { 0 };
    let ghost body = v@.skip(start as int);
    assert(body =~= (if signed { v@.drop_first() } else { v@ }));
    if n == start {
        return None;
    }
    if !digits_from(v, start) {
        return None;
    }
    let mut value: i64 = 0;
    let mut over = false;
    let mut j: usize = start;
    while j < n
        invariant
            n == v@.len(),
            start <= j <= n,
            body == v@.skip(start as int),
            all_digits(body),
            !over ==> value == digits_value(body.take(j - start)) && 0 <= value,
            over ==> digits_value(body.take(j - start)) > 2147483648,
        decreases n - j,
    {
        proof {
            lemma_digits_value_step(body, j - start);
            assert(body[j - start] == v@[j as int]);
        }
        let d = ((v[j] as u32) - ('0' as u32)) as i64;
        if over || value > 2147483648 {
            over = true;
        } else {
            value = value * 10 + d;
        }
        j = j + 1;
    }
    assert(body.take(n - start) =~= body);
    if over || value > 2147483648 {
        return None;
    }
    let signed_value: i64 = if negative { -value } else { value };
    if signed_value < -2147483648 || signed_value > 2147483647 {
        None
    } else {
        Some(signed_value as i32)
    }
}

proof fn lemma_digit_strs()
    ensures
        forall|d: int| 0 <= d < 10 ==> (#[trigger] DIGIT_STRS[d])@ == seq![DIGITS[d]],
{
    reveal_strlit("0");
    reveal_strlit("1");
    reveal_strlit("2");
    reveal_strlit("3");
    reveal_strlit("4");
    reveal_strlit("5");
    reveal_strlit("6");
    reveal_strlit("7");
    reveal_strlit("8");
    reveal_strlit("9");
    assert forall|d: int| 0 <= d < 10 implies (#[trigger] DIGIT_STRS[d])@ == seq![DIGITS[d]] by {
        if d == 0 { assert(DIGIT_STRS[d]@ =~= seq![DIGITS[d]]); }
        else if d == 1 { assert(DIGIT_STRS[d]@ =~= seq![DIGITS[d]]); }
        else if d == 2 { assert(DIGIT_STRS[d]@ =~= seq![DIGITS[d]]); }
        else if d == 3 { assert(DIGIT_STRS[d]@ =~= seq![DIGITS[d]]); }
        else if d == 4 { assert(DIGIT_STRS[d]@ =~= seq![DIGITS[d]]); }
        else if d == 5 { assert(DIGIT_STRS[d]@ =~= seq![DIGITS[d]]); }
        else if d == 6 { assert(DIGIT_STRS[d]@ =~= seq![DIGITS[d]]); }
        else if d == 7 { assert(DIGIT_STRS[d]@ =~= seq![DIGITS[d]]); }
        else if d == 8 { assert(DIGIT_STRS[d]@ =~= seq![DIGITS[d]]); }
        else { assert(DIGIT_STRS[d]@ =~= seq![DIGITS[d]]); }
    }
}

/// Appends the decimal digits of `n` to `out`.
pub fn push_digits(out: &mut String, n: u32)
    ensures
        final(out)@ == old(out)@ + digits_text(n as nat),
    decreases n,
{
    if n >= 10 {
        push_digits(out, n / 10);
    }
    proof {
        lemma_digit_strs();
    }
    let d = (n % 10) as usize;
    out.append(DIGIT_STRS[d]);
    proof {
        if n >= 10 {
            assert(old(out)@ + digits_text(n as nat) =~= old(out)@ + digits_text((n / 10) as nat) + seq![DIGITS[d as int]]);
        } else {
            assert(old(out)@ + digits_text(n as nat) =~= old(out)@ + seq![DIGITS[d as int]]);
        }
    }
}

/// Appends `i` in decimal to `out`, as `format!("{}", i)` writes it.
pub fn push_decimal(out: &mut String, i: i32)
    ensures
        final(out)@ == old(out)@ + decimal_text(i as int),
{
    if i < 0 {
        proof {
            reveal_strlit("-");
        }
        out.append("-");
        let magnitude: u32 = (-(i as i64)) as u32;
        push_digits(out, magnitude);
        assert(old(out)@ + decimal_text(i as int) =~= old(out)@ + seq!['-'] + digits_text(magnitude as nat));
    } else {
        push_digits(out, i as u32);
    }
}


proof fn lemma_digit_char(d: int)
    requires
        0 <= d < 10,
    ensures
        is_ascii_digit(DIGITS[d]),
        DIGITS[d] as int - '0' as int == d,
{
    if d == 0 {} else if d == 1 {} else if d == 2 {} else if d == 3 {} else if d == 4 {}
    else if d == 5 {} else if d == 6 {} else if d == 7 {} else if d == 8 {} else {}
}

/// The decimal digits of `n` are a non-empty run of digits whose value is `n`.
pub proof fn lemma_digits_text(n: nat)
    ensures
        digits_text(n).len() >= 1,
        all_digits(digits_text(n)),
        digits_value(digits_text(n)) == n,
    decreases n,
{
    if n < 10 {
        lemma_digit_char(n as int);
        assert(digits_text(n).drop_last() =~= Seq::<char>::empty());
        assert(digits_value(Seq::<char>::empty()) == 0);
    } else {
        lemma_digits_text(n / 10);
        lemma_digit_char((n % 10) as int);
        let t = digits_text(n);
        assert(t.drop_last() =~= digits_text(n / 10));
        assert(t.last() == DIGITS[(n % 10) as int]);
        assert((n / 10) * 10 + n % 10 == n);
        assert forall|i: int| 0 <= i < t.len() implies is_ascii_digit(#[trigger] t[i]) by {
            if i < t.len() - 1 {
                assert(t[i] == digits_text(n / 10)[i]);
            }
        }
    }
}

/// Reading an integer back from its decimal text gives the integer.
pub proof fn lemma_parse_decimal(i: i32)
    ensures
        parse_i32_text(decimal_text(i as int)) == Some(i),
        decimal_text(i as int).len() >= 1,
        is_ascii_digit(decimal_text(i as int)[0]) || decimal_text(i as int)[0] == '-',
        is_ascii_digit(decimal_text(i as int).last()),
        forall|k: int|
            0 <= k < decimal_text(i as int).len() ==> is_ascii_digit(
                #[trigger] decimal_text(i as int)[k],
            ) || decimal_text(i as int)[k] == '-',
{
    let s = decimal_text(i as int);
    if i < 0 {
        let m = (-i) as nat;
        lemma_digits_text(m);
        assert(s.drop_first() =~= digits_text(m));
        assert forall|k: int| 0 <= k < s.len() implies is_ascii_digit(#[trigger] s[k]) || s[k]
            == '-' by {
            if k > 0 {
                assert(s[k] == digits_text(m)[k - 1]);
            }
        }
        assert(s.last() == digits_text(m)[digits_text(m).len() - 1]);
    } else {
        lemma_digits_text(i as nat);
        assert(is_ascii_digit(s[0]));
        assert(is_ascii_digit(s[s.len() - 1]));
    }
}


proof fn lemma_upper_keeps_white_space(c: char)
    ensures
        is_white_space(ascii_upper(c)) == is_white_space(c),
{
}

proof fn lemma_trim_start_upper(s: Seq<char>)
    ensures
        upper(trim_start(s)) == trim_start(upper(s)),
    decreases s.len(),
{
    if s.len() > 0 {
        lemma_upper_keeps_white_space(s[0]);
        assert(upper(s)[0] == ascii_upper(s[0]));
        if is_white_space(s[0]) {
            assert(upper(s).drop_first() =~= upper(s.drop_first()));
            lemma_trim_start_upper(s.drop_first());
        }
    } else {
        assert(upper(s) =~= s);
    }
}

proof fn lemma_trim_end_upper(s: Seq<char>)
    ensures
        upper(trim_end(s)) == trim_end(upper(s)),
    decreases s.len(),
{
    if s.len() > 0 {
        lemma_upper_keeps_white_space(s.last());
        assert(upper(s).last() == ascii_upper(s.last()));
        if is_white_space(s.last()) {
            assert(upper(s).drop_last() =~= upper(s.drop_last()));
            lemma_trim_end_upper(s.drop_last());
        }
    } else {
        assert(upper(s) =~= s);
    }
}

/// Trimming white space and taking ASCII upper case may be done in either
/// order.
pub proof fn lemma_trim_upper(s: Seq<char>)
    ensures
        upper(trim(s)) == trim(upper(s)),
{
    lemma_trim_end_upper(trim_start(s));
    lemma_trim_start_upper(s);
}

/// Upper case maps each small ASCII letter to its capital, 32 code points
/// lower, and leaves every other character as it is.
pub proof fn lemma_ascii_upper(c: char)
    ensures
        'a' <= c <= 'z' ==> 'A' <= ascii_upper(c) <= 'Z' && ascii_upper(c) as u32 + 32 == c as u32,
        !('a' <= c <= 'z') ==> ascii_upper(c) == c,
{
}

/// Lower case maps each capital ASCII letter to its small letter, 32 code
/// points higher, and leaves every other character as it is.
pub proof fn lemma_ascii_lower(c: char)
    ensures
        'A' <= c <= 'Z' ==> 'a' <= ascii_lower(c) <= 'z' && ascii_lower(c) as u32 == c as u32 + 32,
        !('A' <= c <= 'Z') ==> ascii_lower(c) == c,
{
}

} // verus!
