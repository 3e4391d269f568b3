//! Text helpers: decimal numbers, byte order and rooted paths.

use vstd::arithmetic::power::pow;
use vstd::prelude::*;
use vstd::string::*;

verus! {

broadcast use vstd::string::group_string_axioms;

/// The character of a decimal digit.
pub open spec fn digit(d: nat) -> char {
    ('0' as int + d) as char
}

/// A number in decimal, without leading zeros.
pub open spec fn decimal(n: nat) -> Seq<char>
    decreases n,
{
    if n < 10 {
        seq![digit(n)]
    } else {
        decimal(n / 10).push(digit(n % 10))
    }
}

/// The text of an optional string slice.
pub open spec fn optional_text(text: Option<&str>) -> Option<Seq<char>> {
    match text {
        Some(t) => Some(t@),
        None => None,
    }
}

/// The text of an optional string.
pub open spec fn optional_string_text(text: Option<String>) -> Option<Seq<char>> {
    match text {
        Some(t) => Some(t@),
        None => None,
    }
}

/// Whether a path begins at the root.
pub open spec fn is_rooted(path: Seq<char>) -> bool {
    path.len() > 0 && path[0] == '/'
}

/// The path, with a slash put in front of it where it has none.
pub open spec fn rooted(path: Seq<char>) -> Seq<char> {
    if is_rooted(path) {
        path
    } else {
        seq!['/'] + path
    }
}

/// Position `i` is where `a` falls behind `b`: they agree before it, and there
/// `a` either ends or holds the smaller byte.
pub open spec fn falls_behind_at(a: Seq<u8>, b: Seq<u8>, i: int) -> bool {
    &&& 0 <= i <= a.len()
    &&& i < b.len()
    &&& a.take(i) == b.take(i)
    &&& i == a.len() || a[i] < b[i]
}

/// Lexicographic order of byte strings.
pub open spec fn bytes_before(a: Seq<u8>, b: Seq<u8>) -> bool {
    exists|i: int| falls_behind_at(a, b, i)
}

/// Order of text: that of its bytes in UTF-8.
pub open spec fn text_before(a: Seq<char>, b: Seq<char>) -> bool {
    bytes_before(vstd::utf8::encode_utf8(a), vstd::utf8::encode_utf8(b))
}

/// Every text of the list comes before every later one.
pub open spec fn strictly_ordered(texts: Seq<Seq<char>>) -> bool {
    forall|i: int, j: int| 0 <= i < j < texts.len() ==> #[trigger] text_before(texts[i], texts[j])
}

/// How one byte string stands to another.
#[derive(Clone, Copy, Debug, PartialEq, Eq, Structural)]
pub enum Standing {
    Before,
    Same,
    After,
}

/// Compares two byte strings.
pub fn compare_bytes(a: &[u8], b: &[u8]) -> (standing: Standing)
    ensures
        standing == Standing::Before <==> bytes_before(a@, b@),
        standing == Standing::Same <==> a@ == b@,
        standing == Standing::After <==> bytes_before(b@, a@),
{
    let mut i: usize = 0;
    while i < a.len() && i < b.len() && a[i] == b[i]
        invariant
            i <= a@.len(),
            i <= b@.len(),
            a@.take(i as int) == b@.take(i as int),
        decreases a.len() - i,
    {
        assert(a@.take(i + 1) == a@.take(i as int).push(a@[i as int]));
        assert(b@.take(i + 1) == b@.take(i as int).push(b@[i as int]));
        i += 1;
    }
    proof {
        assert(a@.take(a@.len() as int) == a@);
        assert(b@.take(b@.len() as int) == b@);
        order_is_strict(a@, b@);
        if i < b.len() && (i == a.len() || a[i as int] < b[i as int]) {
            assert(falls_behind_at(a@, b@, i as int));
        }
        if i < a.len() && (i == b.len() || b[i as int] < a[i as int]) {
            assert(falls_behind_at(b@, a@, i as int));
        }
    }
    if i == a.len() {
        if i == b.len() {
            Standing::Same
        } else {
            Standing::Before
        }
    } else if i == b.len() {
        Standing::After
    } else if a[i] < b[i] {
        Standing::Before
    } else {
        Standing::After
    }
}

/// Lexicographic order is irreflexive and asymmetric.
pub proof fn order_is_strict(a: Seq<u8>, b: Seq<u8>)
    ensures
        !bytes_before(a, a),
        !(bytes_before(a, b) && bytes_before(b, a)),
{
    if bytes_before(a, b) && bytes_before(b, a) {
        order_is_transitive(a, b, a);
    }
}

/// Lexicographic order is transitive.
pub proof fn order_is_transitive(a: Seq<u8>, b: Seq<u8>, c: Seq<u8>)
    requires
        bytes_before(a, b),
        bytes_before(b, c),
    ensures
        bytes_before(a, c),
{
    let i = choose|i: int| falls_behind_at(a, b, i);
    let j = choose|j: int| falls_behind_at(b, c, j);
    let k = if i < j { i } else { j };
    assert(a.take(k) == a.take(i).take(k));
    assert(b.take(k) == b.take(i).take(k));
    assert(b.take(k) == b.take(j).take(k));
    assert(c.take(k) == c.take(j).take(k));
    if i < j {
        assert(b.take(j)[i] == c.take(j)[i]);
    }
    if j < i {
        assert(a.take(i)[j] == b.take(i)[j]);
    }
    assert(falls_behind_at(a, c, k));
}

/// Distinct texts have distinct bytes.
pub proof fn bytes_determine_text(a: Seq<char>, b: Seq<char>)
    ensures
        vstd::utf8::encode_utf8(a) == vstd::utf8::encode_utf8(b) ==> a == b,
{
    vstd::utf8::encode_utf8_decode_utf8(a);
    vstd::utf8::encode_utf8_decode_utf8(b);
}

/// Compares two texts.
pub fn compare_text(a: &str, b: &str) -> (standing: Standing)
    ensures
        standing == Standing::Before <==> text_before(a@, b@),
        standing == Standing::Same <==> a@ == b@,
        standing == Standing::After <==> text_before(b@, a@),
{
    proof {
        bytes_determine_text(a@, b@);
    }
    compare_bytes(a.as_bytes(), b.as_bytes())
}

/// Whether two texts are the same.
pub fn same_text(a: &str, b: &str) -> (same: bool)
    ensures
        same == (a@ == b@),
{
    compare_text(a, b) == Standing::Same
}

/// A list in strict order is determined by the set of its texts.
pub proof fn ordered_lists_agree(a: Seq<Seq<char>>, b: Seq<Seq<char>>)
    requires
        strictly_ordered(a),
        strictly_ordered(b),
        forall|t: Seq<char>| a.contains(t) <==> b.contains(t),
    ensures
        a == b,
    decreases a.len(),
{
    if a.len() == 0 {
        if b.len() > 0 {
            assert(b.contains(b[0]));
        }
        assert(a == b);
    } else {
        assert(a.contains(a[0]));
        let k = choose|k: int| 0 <= k < b.len() && b[k] == a[0];
        assert(b.contains(b[0]));
        let m = choose|m: int| 0 <= m < a.len() && a[m] == b[0];
        if k > 0 {
            assert(text_before(b[0], b[k]));
            order_is_strict(vstd::utf8::encode_utf8(a[0]), vstd::utf8::encode_utf8(b[0]));
            if m > 0 {
                assert(text_before(a[0], a[m]));
            }
            assert(false);
        }
        let ra = a.drop_first();
        let rb = b.drop_first();
        assert forall|i: int, j: int| 0 <= i < j < ra.len() implies #[trigger] text_before(
            ra[i],
            ra[j],
        ) by {
            assert(text_before(a[i + 1], a[j + 1]));
        }
        assert forall|i: int, j: int| 0 <= i < j < rb.len() implies #[trigger] text_before(
            rb[i],
            rb[j],
        ) by {
            assert(text_before(b[i + 1], b[j + 1]));
        }
        assert forall|t: Seq<char>| ra.contains(t) implies rb.contains(t) by {
            let i = choose|i: int| 0 <= i < ra.len() && ra[i] == t;
            assert(a[i + 1] == t);
            assert(a.contains(t));
            let j = choose|j: int| 0 <= j < b.len() && b[j] == t;
            if j == 0 {
                assert(text_before(a[0], a[i + 1]));
                order_is_strict(vstd::utf8::encode_utf8(t), vstd::utf8::encode_utf8(t));
            }
            assert(rb[j - 1] == t);
        }
        assert forall|t: Seq<char>| rb.contains(t) implies ra.contains(t) by {
            let i = choose|i: int| 0 <= i < rb.len() && rb[i] == t;
            assert(b[i + 1] == t);
            assert(b.contains(t));
            let j = choose|j: int| 0 <= j < a.len() && a[j] == t;
            if j == 0 {
                assert(text_before(b[0], b[i + 1]));
                order_is_strict(vstd::utf8::encode_utf8(t), vstd::utf8::encode_utf8(t));
            }
            assert(ra[j - 1] == t);
        }
        ordered_lists_agree(ra, rb);
        assert(a == seq![a[0]] + ra);
        assert(b == seq![b[0]] + rb);
    }
}

/// The text of one decimal digit.
fn digit_text(d: u16) -> (text: &'static str)
    requires
        d < 10,
    ensures
        text@ == seq![digit(d as nat)],
{
    proof {
        reveal_strlit("0");
        reveal_strlit("1");
        reveal_strlit("2");
        reveal_strlit("3");
        reveal_strlit("4");
        reveal_strlit("5");
        reveal_strlit("6");
        reveal_strlit("7");
        reveal_strlit("8");
        reveal_strlit("9");
    }
    let text = match d {
        0 => "0",
        1 => "1",
        2 => "2",
        3 => "3",
        4 => "4",
        5 => "5",
        6 => "6",
        7 => "7",
        8 => "8",
        _ => "9",
    };
    text
}

/// Appends a number in decimal.
pub fn push_decimal(out: &mut String, n: u16)
    ensures
        final(out)@ == old(out)@ + decimal(n as nat),
    decreases n,
{
    if n >= 10 {
        push_decimal(out, n / 10);
    }
    out.append(digit_text(n % 10));
}

/// Appends a path, with a slash put in front of it where it has none.
pub fn push_rooted(out: &mut String, path: &str)
    ensures
        final(out)@ == old(out)@ + rooted(path@),
{
    let starts_at_root = !path.is_empty() && path.get_char(0) == '/';
    if !starts_at_root {
        proof {
            reveal_strlit("/");
        }
        out.append("/");
        assert("/"@ == seq!['/']);
    }
    out.append(path);
}

/// The text of an optional string is the text of the string, where there is one.
pub proof fn optional_texts_are_kept(slice: &str, string: String)
    ensures
        optional_text(Some(slice)) == Some(slice@),
        optional_text(None) is None,
        optional_string_text(Some(string)) == Some(string@),
        optional_string_text(None) is None,
{
}

/// A number in decimal has, counted from its end, its units, tens, hundreds and so on
/// as digits, as many as it takes and no more.
pub proof fn decimal_has_the_digits(n: nat)
    ensures
        decimal(n).len() >= 1,
        n < pow(10, decimal(n).len()),
        decimal(n).len() > 1 ==> pow(10, (decimal(n).len() - 1) as nat) <= n,
        forall|i: nat|
            i < decimal(n).len() ==> (#[trigger] decimal(n)[decimal(n).len() - 1 - i]) as int
                == 48 + (n as int / pow(10, i)) % 10,
    decreases n,
{
    broadcast use vstd::arithmetic::power::lemma_pow_positive;

    vstd::arithmetic::power::lemma_pow0(10);
    vstd::arithmetic::power::lemma_pow1(10);
    let text = decimal(n);
    if n < 10 {
        assert(text =~= seq![digit(n)]);
        assert forall|i: nat| i < text.len() implies (#[trigger] text[text.len() - 1 - i]) as int
            == 48 + (n as int / pow(10, i)) % 10 by {
            assert(i == 0);
        }
    } else {
        let tens = n / 10;
        let rest = decimal(tens);
        decimal_has_the_digits(tens);
        assert(text.len() == rest.len() + 1);
        reveal(pow);
        assert(pow(10, text.len()) == 10 * pow(10, rest.len()));
        if rest.len() > 1 {
            assert(pow(10, rest.len()) == 10
                * pow(10, (rest.len() - 1) as nat));
        } else {
            assert(rest.len() == 1);
            assert((text.len() - 1) as nat == 1);
        }
        assert forall|i: nat| i < text.len() implies (#[trigger] text[text.len() - 1 - i]) as int
            == 48 + (n as int / pow(10, i)) % 10 by {
            if i == 0 {
                assert(text[text.len() - 1] == digit(n % 10));
                assert(n as int / 1 == n);
            } else {
                let j = (i - 1) as nat;
                let power = pow(10, j);
                assert(pow(10, i) == 10 * power);
                vstd::arithmetic::div_mod::lemma_div_denominator(n as int, 10, power);
                assert(text[text.len() - 1 - i] == rest[rest.len() - 1 - j]);
            }
        }
    }
}

/// Different numbers are written differently.
pub proof fn decimal_tells_numbers_apart(a: nat, b: nat)
    ensures
        decimal(a) == decimal(b) ==> a == b,
    decreases a,
{
    if decimal(a) == decimal(b) {
        decimal_has_the_digits(a / 10);
        decimal_has_the_digits(b / 10);
        assert((a < 10) == (decimal(a).len() == 1));
        assert((b < 10) == (decimal(b).len() == 1));
        assert(decimal(a).last() == digit(a % 10));
        assert(decimal(b).last() == digit(b % 10));
        if a >= 10 {
            assert(decimal(a).drop_last() =~= decimal(a / 10));
            assert(decimal(b).drop_last() =~= decimal(b / 10));
            decimal_tells_numbers_apart(a / 10, b / 10);
        }
    }
}

/// A rooted path begins with a slash and ends with the whole path. It is the path
/// itself exactly when that begins with a slash, and else one character longer.
pub proof fn rooted_keeps_the_path(path: Seq<char>)
    ensures
        rooted(path).len() > 0,
        rooted(path)[0] == '/',
        rooted(path).len() >= path.len(),
        rooted(path).skip(rooted(path).len() - path.len()) == path,
        path.len() > 0 && path[0] == '/' ==> rooted(path) == path,
        path.len() == 0 || path[0] != '/' ==> rooted(path).len() == path.len() + 1,
{
    assert(rooted(path).skip(rooted(path).len() - path.len()) =~= path);
}

/// Nothing comes before the empty string, which comes before every other.
pub proof fn empty_string_comes_first(a: Seq<u8>)
    ensures
        !bytes_before(a, Seq::<u8>::empty()),
        a.len() > 0 ==> bytes_before(Seq::<u8>::empty(), a),
{
    if a.len() > 0 {
        assert(Seq::<u8>::empty().take(0) =~= a.take(0));
        assert(falls_behind_at(Seq::<u8>::empty(), a, 0));
    }
}

/// Of two strings that begin with different bytes, the one with the smaller byte comes
/// first, whatever follows. Where they begin alike, what follows decides.
pub proof fn first_byte_decides(x: u8, a: Seq<u8>, y: u8, b: Seq<u8>)
    ensures
        x < y ==> bytes_before(seq![x] + a, seq![y] + b),
        x > y ==> !bytes_before(seq![x] + a, seq![y] + b),
        x == y ==> (bytes_before(seq![x] + a, seq![y] + b) <==> bytes_before(a, b)),
{
    let p = seq![x] + a;
    let q = seq![y] + b;
    if x < y {
        assert(p.take(0) =~= q.take(0));
        assert(falls_behind_at(p, q, 0));
    }
    if bytes_before(p, q) {
        let i = choose|i: int| falls_behind_at(p, q, i);
        if i > 0 {
            assert(p.take(i)[0] == q.take(i)[0]);
        }
        if x == y {
            assert(a.take(i - 1) =~= p.take(i).skip(1));
            assert(b.take(i - 1) =~= q.take(i).skip(1));
            assert(falls_behind_at(a, b, i - 1));
        }
    }
    if x == y && bytes_before(a, b) {
        let i = choose|i: int| falls_behind_at(a, b, i);
        assert(p.take(i + 1) =~= seq![x] + a.take(i));
        assert(q.take(i + 1) =~= seq![y] + b.take(i));
        assert(falls_behind_at(p, q, i + 1));
    }
}

/// Texts are in the order of their bytes in UTF-8.
pub proof fn texts_are_ordered_by_bytes(a: Seq<char>, b: Seq<char>)
    ensures
        text_before(a, b) <==> bytes_before(
            vstd::utf8::encode_utf8(a),
            vstd::utf8::encode_utf8(b),
        ),
{
}

/// Lists of up to one text are in strict order. A list stays in strict order when a text
/// is put behind it exactly where every text of the list comes before that.
pub proof fn strict_order_by_one_text(texts: Seq<Seq<char>>, last: Seq<char>)
    ensures
        strictly_ordered(Seq::<Seq<char>>::empty()),
        strictly_ordered(texts.push(last)) <==> strictly_ordered(texts) && forall|i: int|
            0 <= i < texts.len() ==> text_before(#[trigger] texts[i], last),
{
    let more = texts.push(last);
    if strictly_ordered(more) {
        assert forall|i: int, j: int| 0 <= i < j < texts.len() implies #[trigger] text_before(
            texts[i],
            texts[j],
        ) by {
            assert(text_before(more[i], more[j]));
        }
        assert forall|i: int| 0 <= i < texts.len() implies text_before(
            #[trigger] texts[i],
            last,
        ) by {
            assert(text_before(more[i], more[texts.len() as int]));
        }
    }
    if strictly_ordered(texts) && forall|i: int|
        0 <= i < texts.len() ==> text_before(#[trigger] texts[i], last) {
        assert forall|i: int, j: int| 0 <= i < j < more.len() implies #[trigger] text_before(
            more[i],
            more[j],
        ) by {
            if j < texts.len() {
                assert(text_before(texts[i], texts[j]));
            } else {
                assert(text_before(texts[i], last));
            }
        }
    }
}

/// In a list in strict order no text occurs twice.
pub proof fn strict_order_has_no_repeats(texts: Seq<Seq<char>>, i: int, j: int)
    requires
        strictly_ordered(texts),
        0 <= i < j < texts.len(),
    ensures
        texts[i] != texts[j],
        text_before(texts[i], texts[j]),
        !text_before(texts[j], texts[i]),
{
    assert(text_before(texts[i], texts[j]));
    order_is_strict(vstd::utf8::encode_utf8(texts[i]), vstd::utf8::encode_utf8(texts[j]));
}

} // verus!
