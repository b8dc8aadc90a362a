//! Small verified text builders: decimal and hexadecimal rendering of
//! integers, and character-level helpers shared by the diagnostics.
use vstd::prelude::*;
use crate::frontend::lexer::digits_value;

verus! {

/// Append one character to `s` (`String::push`).
#[verifier::external_body]
pub(crate) fn push_char(s: &mut String, c: char)
    ensures
        final(s)@ == old(s)@.push(c),
{
    s.push(c);
}

/// The ASCII digit for `d < 16` (lower-case letters above 9).
pub open spec fn digit_char(d: nat) -> char {
    if d < 10 {
        (48 + d) as char
    } else {
        (87 + d) as char
    }
}

/// Decimal rendering of `n`, most significant digit first, no leading zeros
/// (a single `0` for zero).
pub open spec fn decimal(n: nat) -> Seq<char>
    decreases n,
{
    if n < 10 {
        seq![digit_char(n)]
    } else {
        decimal(n / 10).push(digit_char(n % 10))
    }
}

/// Lower-case hexadecimal rendering of `n`, no leading zeros.
pub open spec fn hexadecimal(n: nat) -> Seq<char>
    decreases n,
{
    if n < 16 {
        seq![digit_char(n)]
    } else {
        hexadecimal(n / 16).push(digit_char(n % 16))
    }
}

/// Decimal rendering of a signed integer: a `-` before the magnitude of a
/// negative value.
pub open spec fn signed_decimal(v: int) -> Seq<char> {
    if v < 0 {
        seq!['-'] + decimal((-v) as nat)
    } else {
        decimal(v as nat)
    }
}

fn digit(d: u128) -> (c: char)
    requires
        d < 16,
    ensures
        c == digit_char(d as nat),
{
    let b: u8 = if d < 10 {
        48u8 + (d as u8)
    } else {
        87u8 + (d as u8)
    };
    b as char
}

/// Append the decimal rendering of `n` to `s`.
pub fn push_decimal(s: &mut String, n: u128)
    ensures
        final(s)@ == old(s)@ + decimal(n as nat),
    decreases n,
{
    if n >= 10 {
        push_decimal(s, n / 10);
    }
    let d = digit(n % 10);
    push_char(s, d);
    proof {
        if n >= 10 {
            assert(decimal(n as nat) == decimal((n / 10) as nat).push(digit_char((n % 10) as nat)));
        } else {
            assert(decimal(n as nat) == seq![digit_char(n as nat)]);
        }
        assert(final(s)@ =~= old(s)@ + decimal(n as nat));
    }
}

/// Append the hexadecimal rendering of `n` to `s`.
pub fn push_hex(s: &mut String, n: u128)
    ensures
        final(s)@ == old(s)@ + hexadecimal(n as nat),
    decreases n,
{
    if n >= 16 {
        push_hex(s, n / 16);
    }
    let d = digit(n % 16);
    push_char(s, d);
    proof {
        assert(final(s)@ =~= old(s)@ + hexadecimal(n as nat));
    }
}

/// Append the decimal rendering of a signed value to `s`.
pub fn push_signed(s: &mut String, v: i64)
    ensures
        final(s)@ == old(s)@ + signed_decimal(v as int),
{
    if v < 0 {
        push_char(s, '-');
        let mag: u128 = (-(v as i128)) as u128;
        push_decimal(s, mag);
        proof {
            assert(final(s)@ =~= old(s)@ + signed_decimal(v as int));
        }
    } else {
        push_decimal(s, v as u128);
    }
}

/// Append a string slice to `s`.
pub fn push_str(s: &mut String, t: &str)
    ensures
        final(s)@ == old(s)@ + t@,
{
    s.append(t);
}

/// The characters of `s`, in order.
pub fn chars_of(s: &str) -> (v: Vec<char>)
    ensures
        v@ == s@,
{
    let n = s.unicode_len();
    let mut v: Vec<char> = Vec::new();
    let mut i: usize = 0;
    while i < n
        invariant
            i <= n,
            n == s@.len(),
            v@ == s@.take(i as int),
        decreases n - i,
    {
        v.push(s.get_char(i));
        i = i + 1;
        proof {
            assert(v@ =~= s@.take(i as int));
        }
    }
    proof {
        assert(s@.take(n as int) =~= s@);
    }
    v
}

/// A `String` holding exactly the characters `cs[from..to]`.
pub fn string_of(cs: &Vec<char>, from: usize, to: usize) -> (s: String)
    requires
        from <= to <= cs@.len(),
    ensures
        s@ == cs@.subrange(from as int, to as int),
{
    let mut s = String::new();
    let mut i = from;
    while i < to
        invariant
            from <= i <= to,
            to <= cs@.len(),
            s@ == cs@.subrange(from as int, i as int),
        decreases to - i,
    {
        push_char(&mut s, cs[i]);
        i = i + 1;
        proof {
            assert(s@ =~= cs@.subrange(from as int, i as int));
        }
    }
    s
}

/// Whether two character sequences are equal.
pub fn chars_eq(a: &[char], b: &[char]) -> (r: bool)
    ensures
        r == (a@ == b@),
{
    if a.len() != b.len() {
        return false;
    }
    let mut i: usize = 0;
    while i < a.len()
        invariant
            a@.len() == b@.len(),
            i <= a@.len(),
            forall|j: int| 0 <= j < i ==> a@[j] == b@[j],
        decreases a@.len() - i,
    {
        if a[i] != b[i] {
            return false;
        }
        i = i + 1;
    }
    proof {
        assert(a@ =~= b@);
    }
    true
}

/// Whether `s` spells exactly the characters `cs`.
pub fn str_is(s: &str, cs: &[char]) -> (r: bool)
    ensures
        r == (s@ == cs@),
{
    let v = chars_of(s);
    chars_eq(v.as_slice(), cs)
}

} // verus!

verus! {

/// The characters of `cs` from index `from` on.
pub fn tail_from(cs: &Vec<char>, from: usize) -> (r: Vec<char>)
    requires
        from <= cs@.len(),
    ensures
        r@ == cs@.skip(from as int),
{
    let mut r: Vec<char> = Vec::new();
    let mut i = from;
    while i < cs.len()
        invariant
            from <= i <= cs@.len(),
            r@ == cs@.subrange(from as int, i as int),
        decreases cs@.len() - i,
    {
        r.push(cs[i]);
        i = i + 1;
        proof {
            assert(r@ =~= cs@.subrange(from as int, i as int));
        }
    }
    proof {
        assert(r@ =~= cs@.skip(from as int));
    }
    r
}

} // verus!

verus! {

/// Unicode `White_Space` (what `char::is_whitespace` tests).
pub open spec fn is_ws(c: char) -> bool {
    let u = c as u32;
    (0x09 <= u <= 0x0D) || u == 0x20 || u == 0x85 || u == 0xA0 || u == 0x1680 || (0x2000 <= u
        <= 0x200A) || u == 0x2028 || u == 0x2029 || u == 0x202F || u == 0x205F || u == 0x3000
}

/// Whether `c` is Unicode white space.
pub fn is_white_space(c: char) -> (b: bool)
    ensures
        b == is_ws(c),
{
    let u = c as u32;
    (0x09 <= u && u <= 0x0D) || u == 0x20 || u == 0x85 || u == 0xA0 || u == 0x1680 || (0x2000 <= u
        && u <= 0x200A) || u == 0x2028 || u == 0x2029 || u == 0x202F || u == 0x205F || u == 0x3000
}

/// `s` without its trailing white space.
pub open spec fn trim_end(s: Seq<char>) -> Seq<char>
    decreases s.len(),
{
    if s.len() > 0 && is_ws(s.last()) {
        trim_end(s.drop_last())
    } else {
        s
    }
}

/// `s` without its leading white space.
pub open spec fn trim_start(s: Seq<char>) -> Seq<char>
    decreases s.len(),
{
    if s.len() > 0 && is_ws(s[0]) {
        trim_start(s.drop_first())
    } else {
        s
    }
}

/// Index of the first `c` in `s` at or after `from`.
pub open spec fn index_of_from(s: Seq<char>, c: char, from: int) -> Option<int>
    decreases s.len() - from,
{
    if from < 0 || from >= s.len() {
        None
    } else if s[from] == c {
        Some(from)
    } else {
        index_of_from(s, c, from + 1)
    }
}

/// What `index_of_from` finds: an occurrence of `c` at or after `from`
/// with none before it; `None` when there is none at all.
pub proof fn lemma_index_of_from(s: Seq<char>, c: char, from: int)
    requires
        0 <= from,
    ensures
        match index_of_from(s, c, from) {
            Some(i) => from <= i < s.len() && s[i] == c && forall|j: int| from <= j < i ==> s[j] != c,
            None => forall|j: int| from <= j < s.len() ==> s[j] != c,
        },
    decreases s.len() - from,
{
    if from < s.len() && s[from] != c {
        lemma_index_of_from(s, c, from + 1);
    }
}

/// Index of the first `c` in `s`.
pub open spec fn index_of(s: Seq<char>, c: char) -> Option<int> {
    index_of_from(s, c, 0)
}

/// Index of the first `c` in `cs`.
pub fn find_char(cs: &[char], c: char) -> (r: Option<usize>)
    ensures
        match index_of(cs@, c) {
            Some(i) => r == Some(i as usize),
            None => r is None,
        },
        r matches Some(i) ==> i < cs@.len() && cs@[i as int] == c && forall|j: int| 0 <= j < i ==> cs@[j] != c,
        r is None ==> forall|j: int| 0 <= j < cs@.len() ==> cs@[j] != c,
{
    proof {
        lemma_index_of_from(cs@, c, 0);
    }
    let mut i: usize = 0;
    while i < cs.len()
        invariant
            i <= cs@.len(),
            index_of(cs@, c) == index_of_from(cs@, c, i as int),
            forall|j: int| 0 <= j < i ==> cs@[j] != c,
        decreases cs@.len() - i,
    {
        proof {
            lemma_index_of_from(cs@, c, i as int);
        }
        if cs[i] == c {
            return Some(i);
        }
        i = i + 1;
    }
    None
}

/// Line-ending normalisation: every CRLF pair and every lone CR becomes LF.
pub open spec fn unify_newlines(s: Seq<char>) -> Seq<char>
    decreases s.len(),
{
    if s.len() == 0 {
        Seq::empty()
    } else if s[0] == '\r' && s.len() > 1 && s[1] == '\n' {
        seq!['\n'] + unify_newlines(s.skip(2))
    } else if s[0] == '\r' {
        seq!['\n'] + unify_newlines(s.skip(1))
    } else {
        seq![s[0]] + unify_newlines(s.skip(1))
    }
}

/// Normalise line endings to LF and drop trailing white space.
pub open spec fn normalised(s: Seq<char>) -> Seq<char> {
    trim_end(unify_newlines(s))
}

/// A `String` of `cs` without its trailing white space.
pub fn trim_end_string(cs: &Vec<char>) -> (s: String)
    ensures
        s@ == trim_end(cs@),
{
    let mut n = cs.len();
    proof {
        assert(cs@.take(n as int) =~= cs@);
    }
    while n > 0 && is_white_space(cs[n - 1])
        invariant
            n <= cs@.len(),
            trim_end(cs@) == trim_end(cs@.take(n as int)),
        decreases n,
    {
        proof {
            assert(cs@.take(n as int).drop_last() =~= cs@.take(n - 1));
        }
        n = n - 1;
    }
    proof {
        if n > 0 {
            assert(cs@.take(n as int).last() == cs@[n - 1]);
        }
        assert(cs@.subrange(0, n as int) =~= cs@.take(n as int));
    }
    string_of(cs, 0, n)
}

/// Normalise line endings to LF and trim trailing white space, so that
/// text written with CRLF and with LF compares equal.
pub fn normalise(s: &str) -> (r: String)
    ensures
        r@ == normalised(s@),
{
    let cs = chars_of(s);
    let mut out: Vec<char> = Vec::new();
    let mut i: usize = 0;
    proof {
        assert(cs@.skip(0) =~= cs@);
        assert(out@ + unify_newlines(cs@) =~= unify_newlines(cs@));
    }
    while i < cs.len()
        invariant
            i <= cs@.len(),
            cs@ == s@,
            out@ + unify_newlines(cs@.skip(i as int)) == unify_newlines(cs@),
        decreases cs@.len() - i,
    {
        let ghost rest = cs@.skip(i as int);
        if cs[i] == '\r' && i + 1 < cs.len() && cs[i + 1] == '\n' {
            out.push('\n');
            i = i + 2;
            proof {
                assert(rest.skip(2) =~= cs@.skip(i as int));
            }
        } else if cs[i] == '\r' {
            out.push('\n');
            i = i + 1;
            proof {
                assert(rest.skip(1) =~= cs@.skip(i as int));
            }
        } else {
            out.push(cs[i]);
            i = i + 1;
            proof {
                assert(rest.skip(1) =~= cs@.skip(i as int));
            }
        }
        proof {
            assert(out@ + unify_newlines(cs@.skip(i as int)) =~= unify_newlines(cs@));
        }
    }
    proof {
        assert(cs@.skip(i as int) =~= Seq::<char>::empty());
        assert(out@ =~= unify_newlines(cs@));
    }
    trim_end_string(&out)
}


/// Whether no character of `s` is a carriage return.
pub open spec fn cr_free(s: Seq<char>) -> bool {
    forall|j: int| 0 <= j < s.len() ==> s[j] != '\r'
}

proof fn lemma_trim_end_prefix(s: Seq<char>)
    ensures
        trim_end(s).len() <= s.len(),
        forall|j: int| 0 <= j < trim_end(s).len() ==> trim_end(s)[j] == s[j],
    decreases s.len(),
{
    if s.len() > 0 && is_ws(s.last()) {
        lemma_trim_end_prefix(s.drop_last());
        assert forall|j: int| 0 <= j < trim_end(s).len() implies trim_end(s)[j] == s[j] by {
            assert(s.drop_last()[j] == s[j]);
        }
    }
}

proof fn lemma_trim_end_idempotent(s: Seq<char>)
    ensures
        trim_end(trim_end(s)) == trim_end(s),
    decreases s.len(),
{
    if s.len() > 0 && is_ws(s.last()) {
        lemma_trim_end_idempotent(s.drop_last());
    }
}

proof fn lemma_unify_cr_free(s: Seq<char>)
    ensures
        cr_free(unify_newlines(s)),
    decreases s.len(),
{
    if s.len() > 0 {
        if s[0] == '\r' && s.len() > 1 && s[1] == '\n' {
            lemma_unify_cr_free(s.skip(2));
        } else {
            lemma_unify_cr_free(s.skip(1));
        }
        let u = unify_newlines(s);
        assert forall|j: int| 0 <= j < u.len() implies u[j] != '\r' by {
            if j > 0 {
                if s[0] == '\r' && s.len() > 1 && s[1] == '\n' {
                    assert(u[j] == unify_newlines(s.skip(2))[j - 1]);
                } else {
                    assert(u[j] == unify_newlines(s.skip(1))[j - 1]);
                }
            }
        }
    }
}

proof fn lemma_unify_identity(s: Seq<char>)
    requires
        cr_free(s),
    ensures
        unify_newlines(s) == s,
    decreases s.len(),
{
    if s.len() > 0 {
        assert(cr_free(s.skip(1)));
        lemma_unify_identity(s.skip(1));
        assert(seq![s[0]] + s.skip(1) =~= s);
    }
}

/// Decimal rendering is read back by the lexer's digit rule: the rendering
/// of `n` is a run of decimal digits whose value is `n`, and it starts
/// with `0` only for zero itself.
pub proof fn law_decimal_reads_back(n: nat)
    ensures
        digits_value(decimal(n)) == n,
        decimal(n).len() >= 1,
        forall|k: int| 0 <= k < decimal(n).len() ==> '0' <= #[trigger] decimal(n)[k] <= '9',
        n > 0 ==> decimal(n)[0] != '0',
    decreases n,
{
    if n < 10 {
        let d = decimal(n);
        assert(d =~= seq![digit_char(n)]);
        assert(d.drop_last() =~= Seq::<char>::empty());
        assert(digit_char(n) as nat == 48 + n);
        assert(digits_value(Seq::<char>::empty()) == 0);
        assert(digits_value(d) == digits_value(d.drop_last()) * 10 + (d.last() as nat - '0' as nat) as nat);
    } else {
        law_decimal_reads_back(n / 10);
        let d = decimal(n);
        let x = digit_char(n % 10);
        assert(d.drop_last() =~= decimal(n / 10));
        assert(d.last() == x);
        assert(x as nat == 48 + n % 10);
        assert(n == (n / 10) * 10 + n % 10);
        assert(digits_value(d) == digits_value(d.drop_last()) * 10 + (d.last() as nat - '0' as nat) as nat);
        assert(digits_value(d) == digits_value(decimal(n / 10)) * 10 + n % 10);
        assert forall|k: int| 0 <= k < d.len() implies '0' <= #[trigger] d[k] <= '9' by {
            if k < d.len() - 1 {
                assert(d[k] == decimal(n / 10)[k]);
            }
        }
        assert(d[0] == decimal(n / 10)[0]);
    }
}

/// Normalised text holds no carriage return and no trailing white space,
/// and normalising it again changes nothing.
pub proof fn law_normalised_is_stable(s: Seq<char>)
    ensures
        cr_free(normalised(s)),
        trim_end(normalised(s)) == normalised(s),
        normalised(normalised(s)) == normalised(s),
{
    let u = unify_newlines(s);
    lemma_unify_cr_free(s);
    lemma_trim_end_prefix(u);
    lemma_trim_end_idempotent(u);
    let t = trim_end(u);
    assert forall|j: int| 0 <= j < t.len() implies t[j] != '\r' by {
        assert(t[j] == u[j]);
    }
    lemma_unify_identity(t);
}

} // verus!

verus! {

/// The Debug rendering (quoted, escaped) of a string.
pub uninterp spec fn debug_quoted(s: Seq<char>) -> Seq<char>;

/// Whether every character of `s` is printable ASCII other than `"` and
/// `\\`: the characters Debug formatting shows as they are.
pub open spec fn plain_ascii(s: Seq<char>) -> bool {
    forall|j: int| 0 <= j < s.len() ==> (' ' <= #[trigger] s[j] <= '~' && s[j] != '"' && s[j] != '\\')
}

/// The Debug rendering of `cs` as a string (`format!("{:?}", ..)`): the
/// text in double quotes with escapes. Of text made only of printable ASCII
/// other than `"` and `\\` it is the text itself in quotes; otherwise the
/// escaping is only named.
#[verifier::external_body]
pub(crate) fn debug_text(cs: &Vec<char>) -> (r: String)
    ensures
        r@ == debug_quoted(cs@),
        plain_ascii(cs@) ==> r@ == seq!['"'] + cs@ + seq!['"'],
{
    let s: String = cs.iter().collect();
    format!("{:?}", s)
}

} // verus!
