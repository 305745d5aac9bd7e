use vstd::prelude::*;
use vstd::string::*;

verus! {

broadcast use vstd::std_specs::vec::group_vec_axioms;

/// A generic JSON-like tree: the form every record takes before it is
/// written as canonical text.
#[derive(Debug)]
pub enum CanonicalValue {
    Null,
    Bool(bool),
    Number(i128),
    Text(String),
    /// Ordered elements; their order is meaningful and kept.
    Sequence(Vec<CanonicalValue>),
    /// Key/value entries; the order in which they were added is irrelevant
    /// to the canonical text.
    Mapping(Vec<(String, CanonicalValue)>),
}

/// One mapping entry: a key and its value.
pub type Entry = (String, CanonicalValue);

/// Byte-wise order of the UTF-8 encodings, which is the order of code points.
pub open spec fn key_less(a: Seq<char>, b: Seq<char>) -> bool
    decreases a.len(),
{
    if b.len() == 0 {
        false
    } else if a.len() == 0 {
        true
    } else if a[0] != b[0] {
        a[0] < b[0]
    } else {
        key_less(a.drop_first(), b.drop_first())
    }
}

/// Entry `j` is written before entry `i`: a smaller key, or the same key
/// added earlier.
pub open spec fn entry_before(es: Seq<Entry>, j: int, i: int) -> bool {
    key_less(es[j].0@, es[i].0@) || (es[j].0@ == es[i].0@ && j < i)
}

/// How many of the first `n` entries are written before entry `i`.
pub open spec fn rank_below(es: Seq<Entry>, i: int, n: int) -> nat
    decreases n,
{
    if n <= 0 {
        0
    } else {
        rank_below(es, i, n - 1) + if entry_before(es, n - 1, i) {
            1nat
        } else {
            0nat
        }
    }
}

/// The position at which entry `i` is written.
pub open spec fn rank(es: Seq<Entry>, i: int) -> nat {
    rank_below(es, i, es.len() as int)
}

/// The first index at or after `from` whose entry is written at position `k`
/// (`es.len()` if there is none).
pub open spec fn index_of_rank(es: Seq<Entry>, k: nat, from: int) -> int
    decreases es.len() - from,
{
    if from < 0 || from >= es.len() {
        es.len() as int
    } else if rank(es, from) == k {
        from
    } else {
        index_of_rank(es, k, from + 1)
    }
}

pub open spec fn digit_char(d: nat) -> char {
    ((d % 10) + 48) as u8 as char
}

/// Decimal digits of `n`, without leading zeros.
pub open spec fn digits(n: nat) -> Seq<char>
    decreases n,
{
    if n < 10 {
        seq![digit_char(n)]
    } else {
        digits(n / 10) + seq![digit_char(n % 10)]
    }
}

pub open spec fn number_text(n: int) -> Seq<char> {
    if n < 0 {
        seq!['-'] + digits((-n) as nat)
    } else {
        digits(n as nat)
    }
}

pub open spec fn hex_digit(d: nat) -> char {
    if d < 10 {
        digit_char(d)
    } else {
        ((d % 16) + 87) as u8 as char
    }
}

/// JSON escaping of one character: quote, backslash and control characters.
pub open spec fn escape_char(c: char) -> Seq<char> {
    if c == '"' {
        seq!['\\', '"']
    } else if c == '\\' {
        seq!['\\', '\\']
    } else if c == '\x08' {
        seq!['\\', 'b']
    } else if c == '\t' {
        seq!['\\', 't']
    } else if c == '\n' {
        seq!['\\', 'n']
    } else if c == '\x0c' {
        seq!['\\', 'f']
    } else if c == '\r' {
        seq!['\\', 'r']
    } else if (c as u32) < 0x20 {
        seq!['\\', 'u', '0', '0', hex_digit((c as u32 / 16) as nat), hex_digit((c as u32 % 16) as nat)]
    } else {
        seq![c]
    }
}

pub open spec fn escaped(s: Seq<char>) -> Seq<char>
    decreases s.len(),
{
    if s.len() == 0 {
        seq![]
    } else {
        escaped(s.drop_last()) + escape_char(s.last())
    }
}

/// A JSON string literal holding `s`.
pub open spec fn quoted(s: Seq<char>) -> Seq<char> {
    seq!['"'] + escaped(s) + seq!['"']
}

/// The canonical text of a value: no whitespace, sequence elements in order,
/// mapping entries by ascending key (equal keys in the order they were added).
pub open spec fn value_text(v: CanonicalValue) -> Seq<char>
    decreases v, 0int,
{
    match v {
        CanonicalValue::Null => seq!['n', 'u', 'l', 'l'],
        CanonicalValue::Bool(b) => if b {
            seq!['t', 'r', 'u', 'e']
        } else {
            seq!['f', 'a', 'l', 's', 'e']
        },
        CanonicalValue::Number(n) => number_text(n as int),
        CanonicalValue::Text(s) => quoted(s@),
        CanonicalValue::Sequence(vs) => seq!['['] + items_text(vs@, vs@.len() as int) + seq![']'],
        CanonicalValue::Mapping(es) => seq!['{'] + entries_text(es@, es@.len() as int) + seq!['}'],
    }
}

/// The first `n` elements of a sequence, separated by commas.
pub open spec fn items_text(vs: Seq<CanonicalValue>, n: int) -> Seq<char>
    decreases vs, n,
{
    if n <= 0 || n > vs.len() {
        seq![]
    } else if n == 1 {
        value_text(vs[0])
    } else {
        items_text(vs, n - 1) + seq![','] + value_text(vs[n - 1])
    }
}

/// The entries written at positions `0..k` of a mapping, separated by commas.
pub open spec fn entries_text(es: Seq<Entry>, k: int) -> Seq<char>
    decreases es, k,
{
    if k <= 0 {
        seq![]
    } else {
        let i = index_of_rank(es, (k - 1) as nat, 0);
        let e = if 0 <= i < es.len() {
            quoted(es[i].0@) + seq![':'] + value_text(es[i].1)
        } else {
            seq![]
        };
        if k == 1 {
            e
        } else {
            entries_text(es, k - 1) + seq![','] + e
        }
    }
}

/// `v` is the sequence of the bytes of `b`, each as a number.
pub open spec fn is_bytes_value(v: CanonicalValue, b: Seq<u8>) -> bool {
    &&& v is Sequence
    &&& v->Sequence_0@.len() == b.len()
    &&& forall|i: int|
        0 <= i < b.len() ==> #[trigger] v->Sequence_0@[i] == CanonicalValue::Number(b[i] as i128)
}

/// Entry `i` of mapping `v` has key `k`.
pub open spec fn has_key(v: CanonicalValue, i: int, k: Seq<char>) -> bool {
    &&& v is Mapping
    &&& 0 <= i < v->Mapping_0@.len()
    &&& v->Mapping_0@[i].0@ == k
}

/// The value of entry `i` of mapping `v`.
pub open spec fn entry_value(v: CanonicalValue, i: int) -> CanonicalValue {
    v->Mapping_0@[i].1
}

/// Relies on serde_json's `Display` for `Value` (the compact writer) on a
/// `Value::String`: the string quoted, with `"`, `\` and control characters
/// escaped (`\uXXXX` with lowercase hex where no short form exists).
#[verifier::external_body]
fn json_string(s: &str) -> (r: String)
    ensures
        r@ == quoted(s@),
{
    serde_json::Value::String(s.to_string()).to_string()
}

/// Relies on std's `FromIterator<char>` for `String`: the characters in order.
#[verifier::external_body]
fn string_of_chars(cs: &Vec<char>) -> (r: String)
    ensures
        r@ == cs@,
{
    cs.iter().collect()
}

fn push_chars(out: &mut Vec<char>, s: &String)
    ensures
        final(out)@ == old(out)@ + s@,
{
    let n = s.as_str().unicode_len();
    let mut i: usize = 0;
    while i < n
        invariant
            n == s@.len(),
            i <= n,
            out@ == old(out)@ + s@.subrange(0, i as int),
        decreases n - i,
    {
        let c = s.as_str().get_char(i);
        out.push(c);
        i = i + 1;
        assert(s@.subrange(0, i as int) =~= s@.subrange(0, i - 1) + seq![c]);
    }
    assert(s@.subrange(0, n as int) =~= s@);
}

fn push_digits(out: &mut Vec<char>, n: u128)
    ensures
        final(out)@ == old(out)@ + digits(n as nat),
    decreases n,
{
    if n >= 10 {
        push_digits(out, n / 10);
    }
    let d = (n % 10) as u8;
    out.push((d + 48) as char);
    assert(digit_char((n % 10) as nat) == (d + 48) as char);
    if n >= 10 {
        assert(out@ =~= old(out)@ + (digits((n / 10) as nat) + seq![digit_char((n % 10) as nat)]));
    } else {
        assert(out@ =~= old(out)@ + digits(n as nat));
    }
}

fn push_number(out: &mut Vec<char>, n: i128)
    ensures
        final(out)@ == old(out)@ + number_text(n as int),
{
    if n < 0 {
        out.push('-');
        let m: u128 = ((-(n + 1)) as u128) + 1;
        push_digits(out, m);
        assert(out@ =~= old(out)@ + (seq!['-'] + digits((-n) as nat)));
    } else {
        push_digits(out, n as u128);
    }
}

/// Whether key `a` is written before key `b`.
fn key_precedes(a: &String, b: &String) -> (r: bool)
    ensures
        r == key_less(a@, b@),
{
    let la = a.as_str().unicode_len();
    let lb = b.as_str().unicode_len();
    let mut i: usize = 0;
    assert(a@.skip(0) =~= a@);
    assert(b@.skip(0) =~= b@);
    while i < la && i < lb
        invariant
            la == a@.len(),
            lb == b@.len(),
            i <= la,
            i <= lb,
            key_less(a@, b@) == key_less(a@.skip(i as int), b@.skip(i as int)),
        decreases la - i,
    {
        let ca = a.as_str().get_char(i);
        let cb = b.as_str().get_char(i);
        assert(a@.skip(i as int)[0] == ca);
        assert(b@.skip(i as int)[0] == cb);
        if ca != cb {
            return ca < cb;
        }
        assert(a@.skip(i as int).drop_first() =~= a@.skip(i + 1));
        assert(b@.skip(i as int).drop_first() =~= b@.skip(i + 1));
        i = i + 1;
    }
    assert(a@.skip(i as int).len() == 0 || b@.skip(i as int).len() == 0);
    i < lb
}

/// The position at which entry `i` of `es` is written.
fn rank_of(es: &Vec<Entry>, i: usize) -> (r: usize)
    requires
        i < es@.len(),
    ensures
        r == rank(es@, i as int),
{
    let mut count: usize = 0;
    let mut j: usize = 0;
    while j < es.len()
        invariant
            i < es@.len(),
            j <= es@.len(),
            count == rank_below(es@, i as int, j as int),
            count <= j,
        decreases es@.len() - j,
    {
        let before = key_precedes(&es[j].0, &es[i].0) || (es[j].0 == es[i].0 && j < i);
        if before {
            count = count + 1;
        }
        j = j + 1;
    }
    count
}

/// The first index whose entry is written at position `k`.
fn find_rank(es: &Vec<Entry>, k: usize) -> (r: usize)
    ensures
        r == index_of_rank(es@, k as nat, 0),
{
    let mut j: usize = 0;
    while j < es.len()
        invariant
            j <= es@.len(),
            index_of_rank(es@, k as nat, j as int) == index_of_rank(es@, k as nat, 0),
        decreases es@.len() - j,
    {
        if rank_of(es, j) == k {
            return j;
        }
        j = j + 1;
    }
    j
}

fn write_value(v: &CanonicalValue, out: &mut Vec<char>)
    ensures
        final(out)@ == old(out)@ + value_text(*v),
    decreases v, 0int,
{
    match v {
        CanonicalValue::Null => {
            out.push('n');
            out.push('u');
            out.push('l');
            out.push('l');
            assert(out@ =~= old(out)@ + value_text(*v));
        },
        CanonicalValue::Bool(b) => {
            if *b {
                out.push('t');
                out.push('r');
                out.push('u');
                out.push('e');
            } else {
                out.push('f');
                out.push('a');
                out.push('l');
                out.push('s');
                out.push('e');
            }
            assert(out@ =~= old(out)@ + value_text(*v));
        },
        CanonicalValue::Number(n) => {
            push_number(out, *n);
        },
        CanonicalValue::Text(s) => {
            let q = json_string(s.as_str());
            push_chars(out, &q);
        },
        CanonicalValue::Sequence(vs) => {
            out.push('[');
            let mut i: usize = 0;
            while i < vs.len()
                invariant
                    *v == CanonicalValue::Sequence(*vs),
                    i <= vs@.len(),
                    out@ == old(out)@ + seq!['['] + items_text(vs@, i as int),
                decreases vs@.len() - i,
            {
                if i > 0 {
                    out.push(',');
                }
                assert(decreases_to!(*v => v->Sequence_0));
                assert(decreases_to!(*vs => vs@));
                assert(decreases_to!(vs@ => vs@[i as int]));
                write_value(&vs[i], out);
                assert(out@ =~= old(out)@ + seq!['['] + items_text(vs@, i + 1));
                i = i + 1;
            }
            out.push(']');
            assert(out@ =~= old(out)@ + value_text(*v));
        },
        CanonicalValue::Mapping(es) => {
            out.push('{');
            let mut k: usize = 0;
            while k < es.len()
                invariant
                    *v == CanonicalValue::Mapping(*es),
                    k <= es@.len(),
                    out@ == old(out)@ + seq!['{'] + entries_text(es@, k as int),
                decreases es@.len() - k,
            {
                if k > 0 {
                    out.push(',');
                }
                let i = find_rank(es, k);
                if i < es.len() {
                    let q = json_string(es[i].0.as_str());
                    push_chars(out, &q);
                    out.push(':');
                    assert(decreases_to!(*v => v->Mapping_0));
                    assert(decreases_to!(*es => es@));
                    assert(decreases_to!(es@ => es@[i as int]));
                    assert(decreases_to!(es@[i as int] => es@[i as int].1));
                    write_value(&es[i].1, out);
                }
                assert(out@ =~= old(out)@ + seq!['{'] + entries_text(es@, k + 1));
                k = k + 1;
            }
            out.push('}');
            assert(out@ =~= old(out)@ + value_text(*v));
        },
    }
}

/// A fixed-length byte blob as a sequence of numbers, one per byte.
pub fn bytes_value(b: &[u8]) -> (r: CanonicalValue)
    ensures
        is_bytes_value(r, b@),
{
    let mut items: Vec<CanonicalValue> = Vec::new();
    let mut i: usize = 0;
    while i < b.len()
        invariant
            i <= b@.len(),
            items@.len() == i,
            forall|j: int| 0 <= j < i ==> #[trigger] items@[j] == CanonicalValue::Number(b@[j] as i128),
        decreases b@.len() - i,
    {
        items.push(CanonicalValue::Number(b[i] as i128));
        i = i + 1;
    }
    CanonicalValue::Sequence(items)
}

/// The canonical JSON text of `value`: compact, with every mapping's keys
/// in ascending order at every depth and every sequence in its own order.
pub fn to_canonical_json(value: &CanonicalValue) -> (r: String)
    ensures
        r@ == value_text(*value),
{
    let mut out: Vec<char> = Vec::new();
    write_value(value, &mut out);
    assert(out@ =~= value_text(*value));
    string_of_chars(&out)
}

} // verus!
