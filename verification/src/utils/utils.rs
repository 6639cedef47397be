use vstd::prelude::*;
use vstd::string::StringExecFns;
use crate::move_ir::file_format::{MoveValue, Visibility};
use crate::move_ir::u256::U256;

verus! {

/// The ten decimal digits.
pub open spec fn dec_digit(d: nat) -> char {
    seq!['0', '1', '2', '3', '4', '5', '6', '7', '8', '9'][d as int]
}

/// `n` in decimal, without leading zeros; `0` for zero.
pub open spec fn dec_digits(n: nat) -> Seq<char>
    decreases n,
{
    if n < 10 {
        seq![dec_digit(n)]
    } else {
        dec_digits(n / 10).push(dec_digit(n % 10))
    }
}

/// The sixteen hexadecimal digits, in upper case.
pub open spec fn upper_hex_digit(d: nat) -> char {
    seq!['0', '1', '2', '3', '4', '5', '6', '7', '8', '9', 'A', 'B', 'C', 'D', 'E', 'F'][d as int]
}

/// The last `k` hexadecimal digits of `n`, in upper case, with leading
/// zeros.
pub open spec fn upper_hex(n: nat, k: nat) -> Seq<char>
    decreases k,
{
    if k == 0 {
        Seq::empty()
    } else {
        upper_hex(n / 16, (k - 1) as nat).push(upper_hex_digit(n % 16))
    }
}

/// `ToString::to_string` of `u128`: the number in decimal.
#[verifier::external_body]
pub(crate) fn u128_decimal(n: u128) -> (r: String)
    ensures
        r@ == dec_digits(n as nat),
{
    n.to_string()
}

/// `Display` of `ethnum::U256`: the number in decimal.
#[verifier::external_body]
pub(crate) fn u256_decimal(a: U256) -> (r: String)
    ensures
        r@ == dec_digits(a@),
{
    format!("{}", ethnum::U256::from_words(a.hi, a.lo))
}

/// `hex::encode_upper` of the 32 bytes of `a`, the most significant
/// first: 64 hexadecimal digits in upper case.
#[verifier::external_body]
pub(crate) fn u256_upper_hex(a: U256) -> (r: String)
    ensures
        r@ == upper_hex(a@, 64),
{
    let mut bytes = a.hi.to_be_bytes().to_vec();
    bytes.extend_from_slice(&a.lo.to_be_bytes());
    hex::encode_upper(bytes)
}

/// How a visibility is written before `fun`.
pub fn visibility_str(visibility: &Visibility) -> (r: &'static str)
    ensures
        r@ == match visibility {
            Visibility::Public => "public "@,
            Visibility::Friend => "public(friend) "@,
            Visibility::Private => ""@,
        },
{
    match visibility {
        Visibility::Public => "public ",
        Visibility::Friend => "public(friend) ",
        Visibility::Private => "",
    }
}

/// `tag`, and in round brackets `body`.
pub open spec fn tagged(tag: Seq<char>, body: Seq<char>) -> Seq<char> {
    tag + "("@ + body + ")"@
}

/// A value as diagnostics show it: the name of its variant and in
/// brackets what it holds; a number in decimal, an address as 64
/// hexadecimal digits, the elements of a vector in square brackets with
/// commas between them.
pub open spec fn debug_text(v: MoveValue) -> Seq<char>
    decreases v,
{
    match v {
        MoveValue::Bool(b) => tagged(
            "Bool"@,
            if b {
                "true"@
            } else {
                "false"@
            },
        ),
        MoveValue::U8(x) => tagged("U8"@, dec_digits(x as nat)),
        MoveValue::U16(x) => tagged("U16"@, dec_digits(x as nat)),
        MoveValue::U32(x) => tagged("U32"@, dec_digits(x as nat)),
        MoveValue::U64(x) => tagged("U64"@, dec_digits(x as nat)),
        MoveValue::U128(x) => tagged("U128"@, dec_digits(x as nat)),
        MoveValue::U256(x) => tagged("U256"@, dec_digits(x@)),
        MoveValue::Address(a) => tagged("Address"@, upper_hex(a@, 64)),
        MoveValue::Signer(a) => tagged("Signer"@, upper_hex(a@, 64)),
        MoveValue::Vector(vs) => tagged("Vector"@, "["@ + debug_list(vs@, vs@.len()) + "]"@),
        MoveValue::Struct(vs) => tagged("Struct"@, "["@ + debug_list(vs@, vs@.len()) + "]"@),
    }
}

/// The first `n` of `vs` as diagnostics show them, with a comma and a
/// blank between them.
pub open spec fn debug_list(vs: Seq<MoveValue>, n: nat) -> Seq<char>
    decreases vs, n,
{
    if n == 0 || n > vs.len() {
        Seq::empty()
    } else if n == 1 {
        debug_text(vs[0])
    } else {
        debug_list(vs, (n - 1) as nat) + ", "@ + debug_text(vs[n - 1])
    }
}

fn tag(name: &str, body: &str) -> (r: String)
    ensures
        r@ == tagged(name@, body@),
{
    let mut out = String::from_str(name);
    out.append("(");
    out.append(body);
    out.append(")");
    out
}

fn debug_list_exec(vs: &Vec<MoveValue>) -> (r: String)
    ensures
        r@ == debug_list(vs@, vs@.len()),
    decreases vs,
{
    let mut out = String::new();
    let mut i: usize = 0;
    while i < vs.len()
        invariant
            i <= vs.len(),
            out@ == debug_list(vs@, i as nat),
        decreases vs.len() - i,
    {
        if i > 0 {
            out.append(", ");
        }
        let item = debug_string(&vs[i]);
        out.append(item.as_str());
        proof {
            if i == 0 {
                assert(Seq::<char>::empty() + item@ =~= item@);
            }
        }
        i += 1;
    }
    out
}

/// A value as diagnostics show it.
pub fn debug_string(v: &MoveValue) -> (r: String)
    ensures
        r@ == debug_text(*v),
    decreases v,
{
    match v {
        MoveValue::Bool(b) => tag(
            "Bool",
            if *b {
                "true"
            } else {
                "false"
            },
        ),
        MoveValue::U8(x) => tag("U8", u128_decimal(*x as u128).as_str()),
        MoveValue::U16(x) => tag("U16", u128_decimal(*x as u128).as_str()),
        MoveValue::U32(x) => tag("U32", u128_decimal(*x as u128).as_str()),
        MoveValue::U64(x) => tag("U64", u128_decimal(*x as u128).as_str()),
        MoveValue::U128(x) => tag("U128", u128_decimal(*x).as_str()),
        MoveValue::U256(x) => tag("U256", u256_decimal(*x).as_str()),
        MoveValue::Address(a) => tag("Address", u256_upper_hex(*a).as_str()),
        MoveValue::Signer(a) => tag("Signer", u256_upper_hex(*a).as_str()),
        MoveValue::Vector(vs) => {
            let mut body = String::from_str("[");
            body.append(debug_list_exec(vs).as_str());
            body.append("]");
            tag("Vector", body.as_str())
        },
        MoveValue::Struct(vs) => {
            let mut body = String::from_str("[");
            body.append(debug_list_exec(vs).as_str());
            body.append("]");
            tag("Struct", body.as_str())
        },
    }
}

/// The number that the bytes `b` spell, the least significant first.
pub open spec fn le_value(b: Seq<u8>) -> nat
    decreases b.len(),
{
    if b.len() == 0 {
        0
    } else {
        b[0] as nat + 256 * le_value(b.drop_first())
    }
}

/// 256 to the power `k`.
pub open spec fn pow256(k: nat) -> nat
    decreases k,
{
    if k == 0 {
        1
    } else {
        256 * pow256((k - 1) as nat)
    }
}

/// The number that bytes spell is below 256 to the number of the bytes.
pub proof fn lemma_le_value_bound(b: Seq<u8>)
    ensures
        le_value(b) < pow256(b.len()),
    decreases b.len(),
{
    if b.len() > 0 {
        lemma_le_value_bound(b.drop_first());
    }
}

pub proof fn lemma_pow256_grows(k: nat, m: nat)
    requires
        k <= m,
    ensures
        pow256(k) <= pow256(m),
    decreases m,
{
    if k < m {
        lemma_pow256_grows(k, (m - 1) as nat);
    }
}

/// The ten digits and the first six letters, in lower case.
pub open spec fn lower_hex_digit(d: nat) -> char {
    seq!['0', '1', '2', '3', '4', '5', '6', '7', '8', '9', 'a', 'b', 'c', 'd', 'e', 'f'][d as int]
}

/// The first `n` of the bytes `b` in hexadecimal, two digits each, in
/// lower case.
pub open spec fn bytes_hex(b: Seq<u8>, n: nat) -> Seq<char>
    decreases n,
{
    if n == 0 || n > b.len() {
        Seq::empty()
    } else {
        bytes_hex(b, (n - 1) as nat).push(lower_hex_digit((b[n - 1] / 16) as nat)).push(
            lower_hex_digit((b[n - 1] % 16) as nat),
        )
    }
}

/// `hex::encode`: every byte as two hexadecimal digits in lower case, in
/// the order of the bytes.
#[verifier::external_body]
pub(crate) fn hex_lower(bytes: &Vec<u8>) -> (r: String)
    ensures
        r@ == bytes_hex(bytes@, bytes@.len()),
{
    hex::encode(bytes)
}

/// The bytes `b` as characters, each byte the character of its number.
pub open spec fn bytes_as_chars(b: Seq<u8>) -> Seq<char> {
    Seq::new(b.len(), |i: int| b[i] as char)
}

/// How a vector of bytes is shown: eight bytes as the number they spell,
/// the least significant first, in decimal; sixteen bytes in hexadecimal,
/// a slash, and the number they spell in decimal; any other as text, each
/// byte a character.
pub open spec fn vec_u8_text(b: Seq<u8>) -> Seq<char> {
    if b.len() == 8 {
        dec_digits(le_value(b))
    } else if b.len() == 16 {
        bytes_hex(b, 16) + "/"@ + dec_digits(le_value(b))
    } else {
        bytes_as_chars(b)
    }
}

/// The number that at most sixteen bytes spell, the least significant
/// first.
fn le_number(vec: &Vec<u8>) -> (r: u128)
    requires
        vec@.len() <= 16,
    ensures
        r == le_value(vec@),
{
    let n = vec.len();
    let mut num: u128 = 0;
    let mut i: usize = n;
    assert(vec@.subrange(n as int, n as int) =~= Seq::<u8>::empty());
    while i > 0
        invariant
            n == vec@.len(),
            n <= 16,
            i <= n,
            num == le_value(vec@.subrange(i as int, n as int)),
        decreases i,
    {
        let ghost rest = vec@.subrange(i as int, n as int);
        let ghost more = vec@.subrange(i - 1, n as int);
        proof {
            lemma_le_value_bound(rest);
            lemma_pow256_grows(rest.len(), 15);
            reveal_with_fuel(pow256, 17);
            assert(pow256(15) == 0x1_00_0000_0000_0000_0000_0000_0000_0000nat);
            assert(more.drop_first() =~= rest);
            assert(more[0] == vec@[i - 1]);
        }
        num = num * 256 + vec[i - 1] as u128;
        i -= 1;
    }
    assert(vec@.subrange(0, n as int) =~= vec@);
    num
}

/// Shows a vector of bytes: eight bytes as a number, sixteen as
/// hexadecimal digits and a number, any other as text.
pub fn format_vec_u8(vec: &Vec<u8>) -> (r: String)
    ensures
        r@ == vec_u8_text(vec@),
{
    let n = vec.len();
    if n == 8 {
        u128_decimal(le_number(vec))
    } else if n == 16 {
        let mut out = hex_lower(vec);
        out.append("/");
        out.append(u128_decimal(le_number(vec)).as_str());
        out
    } else {
        let mut out = String::new();
        let mut i: usize = 0;
        while i < n
            invariant
                n == vec@.len(),
                i <= n,
                out@ == bytes_as_chars(vec@.take(i as int)),
            decreases n - i,
        {
            out = push_char(out, vec[i] as char);
            assert(bytes_as_chars(vec@.take(i + 1)) =~= bytes_as_chars(vec@.take(i as int)).push(
                vec@[i as int] as char,
            ));
            i += 1;
        }
        assert(vec@.take(n as int) =~= vec@);
        out
    }
}

/// `String::push`: the text with the character behind it.
#[verifier::external_body]
fn push_char(s: String, c: char) -> (r: String)
    ensures
        r@ == s@.push(c),
{
    let mut s = s;
    s.push(c);
    s
}

} // verus!
