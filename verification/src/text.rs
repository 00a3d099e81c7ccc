//! Identifier text: upper camel case and the names of generated items.
use vstd::prelude::*;

verus! {

/// What `char::to_uppercase` yields for `c`.
pub uninterp spec fn uppercase_of(c: char) -> Seq<char>;

/// std's `char::to_uppercase`, collected. It yields one or more characters;
/// an ASCII lowercase letter maps to its uppercase letter and any other ASCII
/// character to itself. Beyond ASCII the Unicode tables are not restated.
#[verifier::external_body]
fn char_uppercase(c: char) -> (r: Vec<char>)
    ensures
        r@ == uppercase_of(c),
        r@.len() >= 1,
        ('a' <= c && c <= 'z') ==> r@ == seq![((c as int) - 32) as char],
        ((c as int) < 128 && !('a' <= c && c <= 'z')) ==> r@ == seq![c],
{
    c.to_uppercase().collect()
}

/// std's `String::push`: appends one character.
#[verifier::external_body]
fn push_char(s: &mut String, c: char)
    ensures
        final(s)@ == old(s)@.push(c),
{
    s.push(c);
}

/// Upper camel case of `s`, reading from the start of a segment when
/// `at_start`: underscores are dropped and the first character of every
/// segment between them is uppercased.
pub open spec fn camel_from(s: Seq<char>, at_start: bool) -> Seq<char>
    decreases s.len(),
{
    if s.len() == 0 {
        Seq::empty()
    } else if s[0] == '_' {
        camel_from(s.drop_first(), true)
    } else if at_start {
        uppercase_of(s[0]) + camel_from(s.drop_first(), false)
    } else {
        seq![s[0]] + camel_from(s.drop_first(), false)
    }
}

/// Upper camel case of a snake-case identifier.
pub open spec fn upper_camel(s: Seq<char>) -> Seq<char> {
    camel_from(s, true)
}

/// The decimal digit for `d < 10`.
pub open spec fn digit(d: nat) -> char {
    (48 + d) as char
}

/// Decimal text of `n`, without leading zeros.
pub open spec fn decimal(n: nat) -> Seq<char>
    decreases n,
{
    if n < 10 {
        seq![digit(n)]
    } else {
        decimal(n / 10) + seq![digit(n % 10)]
    }
}

/// An ASCII character in upper case: a lowercase letter becomes its
/// uppercase letter, anything else stays.
pub open spec fn ascii_upper(c: char) -> char {
    if 'a' <= c && c <= 'z' {
        ((c as int) - 32) as char
    } else {
        c
    }
}

/// Every character of `s` is ASCII.
pub open spec fn is_ascii_text(s: Seq<char>) -> bool {
    forall|i: int| 0 <= i < s.len() ==> (#[trigger] s[i] as int) < 128
}

/// [`camel_from`] on ASCII text, where uppercasing is [`ascii_upper`].
pub open spec fn ascii_camel_from(s: Seq<char>, at_start: bool) -> Seq<char>
    decreases s.len(),
{
    if s.len() == 0 {
        Seq::empty()
    } else if s[0] == '_' {
        ascii_camel_from(s.drop_first(), true)
    } else if at_start {
        seq![ascii_upper(s[0])] + ascii_camel_from(s.drop_first(), false)
    } else {
        seq![s[0]] + ascii_camel_from(s.drop_first(), false)
    }
}

/// Converts a snake-case identifier to upper camel case: `to_upper_camel_case("for_range")`
/// is `"ForRange"`; underscores vanish and each segment's first character is uppercased.
/// On ASCII text that uppercasing is [`ascii_upper`].
pub fn to_upper_camel_case(s: &str) -> (r: String)
    ensures
        r@ == upper_camel(s@),
        is_ascii_text(s@) ==> r@ == ascii_camel_from(s@, true),
{
    let n = s.unicode_len();
    let mut out = String::new();
    let mut at_start = true;
    let mut i: usize = 0;
    assert(s@.skip(0) =~= s@);
    while i < n
        invariant
            n == s@.len(),
            0 <= i <= n,
            upper_camel(s@) == out@ + camel_from(s@.skip(i as int), at_start),
            is_ascii_text(s@) ==> ascii_camel_from(s@, true) == out@ + ascii_camel_from(s@.skip(i as int), at_start),
        decreases n - i,
    {
        let c = s.get_char(i);
        let ghost rest = s@.skip(i as int);
        assert(rest[0] == c);
        assert(rest.drop_first() =~= s@.skip(i + 1));
        if c == '_' {
            at_start = true;
        } else if at_start {
            let up = char_uppercase(c);
            let ghost before = out@;
            let mut j: usize = 0;
            while j < up.len()
                invariant
                    0 <= j <= up.len(),
                    out@ == before + up@.take(j as int),
                decreases up.len() - j,
            {
                push_char(&mut out, up[j]);
                j += 1;
                assert(out@ =~= before + up@.take(j as int));
            }
            assert(up@.take(up.len() as int) =~= up@);
            assert(out@ + camel_from(s@.skip(i + 1), false) =~= before + (uppercase_of(c)
                + camel_from(s@.skip(i + 1), false)));
            proof {
                if is_ascii_text(s@) {
                    assert((s@[i as int] as int) < 128);
                    assert(up@ == seq![ascii_upper(c)]);
                    assert(out@ + ascii_camel_from(s@.skip(i + 1), false) =~= before + (seq![ascii_upper(c)]
                        + ascii_camel_from(s@.skip(i + 1), false)));
                }
            }
            at_start = false;
        } else {
            let ghost before = out@;
            push_char(&mut out, c);
            assert(out@ + camel_from(s@.skip(i + 1), false) =~= before + (seq![c] + camel_from(
                s@.skip(i + 1),
                false,
            )));
            assert(out@ + ascii_camel_from(s@.skip(i + 1), false) =~= before + (seq![c] + ascii_camel_from(
                s@.skip(i + 1),
                false,
            )));
        }
        i += 1;
    }
    assert(s@.skip(n as int) =~= Seq::<char>::empty());
    assert(out@ + Seq::<char>::empty() =~= out@);
    assert(is_ascii_text(s@) ==> out@ + ascii_camel_from(s@.skip(n as int), at_start) == out@);
    out
}

/// Appends the decimal text of `n` to `s`.
fn push_decimal(s: &mut String, n: usize)
    ensures
        final(s)@ == old(s)@ + decimal(n as nat),
    decreases n,
{
    if n >= 10 {
        push_decimal(s, n / 10);
    }
    let d = n % 10;
    let c: char = if d == 0 { '0' } else if d == 1 { '1' } else if d == 2 { '2' } else if d == 3 {
        '3'
    } else if d == 4 { '4' } else if d == 5 { '5' } else if d == 6 { '6' } else if d == 7 {
        '7'
    } else if d == 8 { '8' } else { '9' };
    assert(c == digit(d as nat));
    let ghost mid = s@;
    push_char(s, c);
    assert(s@ =~= old(s)@ + decimal(n as nat));
}

/// `prefix` followed by the decimal text of `n`, e.g. `("LoopHead", 0)` gives `"LoopHead0"`.
pub fn indexed(prefix: &str, n: usize) -> (r: String)
    ensures
        r@ == prefix@ + decimal(n as nat),
{
    let mut s = String::from_str(prefix);
    push_decimal(&mut s, n);
    s
}

/// `prefix` followed by the upper camel case of `name`.
pub fn prefixed_camel(prefix: &str, name: &str) -> (r: String)
    ensures
        r@ == prefix@ + upper_camel(name@),
{
    let mut s = String::from_str(prefix);
    let c = to_upper_camel_case(name);
    s.append(c.as_str());
    s
}

/// `a` followed by `b`.
pub fn join_text(a: &str, b: &str) -> (r: String)
    ensures
        r@ == a@ + b@,
{
    let mut s = String::from_str(a);
    s.append(b);
    s
}

/// Name of the state enum for a coroutine function: `for_range` gives `ForRangeCoroutine`.
pub fn coroutine_name(fn_name: &str) -> (r: String)
    ensures
        r@ == upper_camel(fn_name@) + "Coroutine"@,
{
    let mut s = to_upper_camel_case(fn_name);
    s.append("Coroutine");
    s
}

/// State waiting on the await bound to `bind`: `n` gives `WaitingN`.
pub fn waiting_variant(bind: &str) -> (r: String)
    ensures
        r@ == "Waiting"@ + upper_camel(bind@),
{
    prefixed_camel("Waiting", bind)
}

/// Rehydration request for the skipped field `field`: `db` gives `NeedsRehydrationDb`.
pub fn needs_rehydration_variant(field: &str) -> (r: String)
    ensures
        r@ == "NeedsRehydration"@ + upper_camel(field@),
{
    prefixed_camel("NeedsRehydration", field)
}

/// State waiting on the awaited iterable of the `for` at await point `index`.
pub fn waiting_iter_variant(index: usize) -> (r: String)
    ensures
        r@ == "WaitingIter"@ + decimal(index as nat),
{
    indexed("WaitingIter", index)
}

/// Join state after the `if` at await point `index`.
pub fn after_if_variant(index: usize) -> (r: String)
    ensures
        r@ == "AfterIf"@ + decimal(index as nat),
{
    indexed("AfterIf", index)
}

/// Join state after the loop at await point `index`.
pub fn after_loop_variant(index: usize) -> (r: String)
    ensures
        r@ == "AfterLoop"@ + decimal(index as nat),
{
    indexed("AfterLoop", index)
}

/// Join state after the `match` at await point `index`.
pub fn after_match_variant(index: usize) -> (r: String)
    ensures
        r@ == "AfterMatch"@ + decimal(index as nat),
{
    indexed("AfterMatch", index)
}

/// Head state of the loop at await point `index`.
pub fn loop_head_variant(index: usize) -> (r: String)
    ensures
        r@ == "LoopHead"@ + decimal(index as nat),
{
    indexed("LoopHead", index)
}


/// Whether two texts are the same sequence of characters.
pub fn same_text(a: &str, b: &str) -> (r: bool)
    ensures
        r == (a@ == b@),
{
    let n = a.unicode_len();
    let m = b.unicode_len();
    if n != m {
        return false;
    }
    let mut i: usize = 0;
    while i < n
        invariant
            n == a@.len(),
            m == b@.len(),
            n == m,
            0 <= i <= n,
            forall|k: int| 0 <= k < i ==> a@[k] == b@[k],
        decreases n - i,
    {
        if a.get_char(i) != b.get_char(i) {
            return false;
        }
        i += 1;
    }
    assert(a@ =~= b@);
    true
}

} // verus!
