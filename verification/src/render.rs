//! Texts in JSON and CSV.

use crate::float::binary64::F64;
use crate::text::chars_of;
use vstd::prelude::*;
use vstd::string::*;

verus! {

/// Texts with commas between.
pub open spec fn comma_list(parts: Seq<Seq<char>>) -> Seq<char>
    decreases parts.len(),
{
    if parts.len() == 0 {
        Seq::empty()
    } else if parts.len() == 1 {
        parts[0]
    } else {
        comma_list(parts.drop_last()).push(',') + parts.last()
    }
}

/// Adds the part at a position of a list with commas between.
pub(crate) fn push_part(out: &mut String, part: &str, head: Ghost<Seq<char>>, parts: Ghost<Seq<Seq<char>>>, i: usize)
    requires
        i < parts@.len(),
        part@ == parts@[i as int],
        old(out)@ == head@ + comma_list(parts@.take(i as int)),
    ensures
        final(out)@ == head@ + comma_list(parts@.take(i + 1)),
{
    proof {
        let t = parts@.take(i + 1);
        assert(t.drop_last() =~= parts@.take(i as int));
        assert(t.last() == parts@[i as int]);
        if i == 0 {
            assert(t[0] == part@);
            assert(parts@.take(0).len() == 0);
            assert(head@ + comma_list(parts@.take(0)) =~= head@);
        } else {
            assert(head@ + (comma_list(parts@.take(i as int)).push(',') + part@) =~= (head@
                + comma_list(parts@.take(i as int))).push(',') + part@);
        }
    }
    if i > 0 {
        out.push(',');
    }
    out.append(part);
}

/// Whether a numeral shows that it is no integer.
pub open spec fn shows_fraction(s: Seq<char>) -> bool {
    s.contains('.') || s.contains('e') || s.contains('E')
}

/// A number in JSON: with a fraction, or `null` where it is not finite.
pub open spec fn json_number(x: F64) -> Seq<char> {
    let s = x.text();
    if !x.is_finite() {
        "null"@
    } else if shows_fraction(s) {
        s
    } else {
        s + ".0"@
    }
}

/// A number in JSON.
pub fn num_json(x: F64) -> (r: String)
    ensures
        r@ == json_number(x),
{
    if !x.is_finite() {
        return "null".to_owned();
    }
    let s = x.to_text();
    let v = chars_of(s.as_str());
    let mut i: usize = 0;
    let mut shows = false;
    while i < v.len()
        invariant
            i <= v.len(),
            v@ == s@,
            shows == exists|j: int|
                0 <= j < i && ((#[trigger] v@[j]) == '.' || v@[j] == 'e' || v@[j] == 'E'),
        decreases v.len() - i,
    {
        let c: char = v[i];
        if c == '.' || c == 'e' || c == 'E' {
            shows = true;
            assert(v@[i as int] == c);
        }
        i = i + 1;
    }
    assert(shows == shows_fraction(s@)) by {
        if shows {
            let j = choose|j: int|
                0 <= j < v@.len() && ((#[trigger] v@[j]) == '.' || v@[j] == 'e' || v@[j] == 'E');
            assert(s@.contains(s@[j]));
        }
        if shows_fraction(s@) {
            let c = if s@.contains('.') {
                '.'
            } else if s@.contains('e') {
                'e'
            } else {
                'E'
            };
            let j = choose|j: int| 0 <= j < s@.len() && s@[j] == c;
            assert(v@[j] == c);
        }
    }
    if shows {
        s
    } else {
        s.concat(".0")
    }
}

/// A number in CSV: empty where it is not finite.
pub open spec fn csv_number(x: F64) -> Seq<char> {
    if x.is_finite() {
        x.text()
    } else {
        Seq::empty()
    }
}

/// A number in CSV.
pub fn num_csv(x: F64) -> (r: String)
    ensures
        r@ == csv_number(x),
{
    if x.is_finite() {
        x.to_text()
    } else {
        String::new()
    }
}

/// Numbers as JSON parts.
pub open spec fn json_parts(xs: Seq<F64>) -> Seq<Seq<char>> {
    xs.map_values(|x: F64| json_number(x))
}

/// A JSON array of numbers.
pub open spec fn json_array(xs: Seq<F64>) -> Seq<char> {
    "["@ + comma_list(json_parts(xs)) + "]"@
}

/// A JSON array of numbers.
pub fn array_json(xs: &Vec<F64>) -> (r: String)
    ensures
        r@ == json_array(xs@),
{
    let mut out: String = "[".to_owned();
    let ghost head = "["@;
    let ghost parts = json_parts(xs@);
    let mut i: usize = 0;
    assert(parts.take(0).len() == 0);
    assert(head + comma_list(parts.take(0)) =~= head);
    while i < xs.len()
        invariant
            i <= xs.len() == parts.len(),
            parts == json_parts(xs@),
            out@ == head + comma_list(parts.take(i as int)),
        decreases xs.len() - i,
    {
        let part = num_json(xs[i]);
        push_part(&mut out, part.as_str(), Ghost(head), Ghost(parts), i);
        i = i + 1;
    }
    assert(parts.take(i as int) =~= parts);
    out.append("]");
    out
}

/// A hexadecimal digit in lower case.
pub open spec fn hex_digit(d: nat) -> char {
    if d < 10 {
        ((0x30 + d) as u32) as char
    } else {
        ((0x57 + d) as u32) as char
    }
}

fn hex_char(d: u8) -> (r: char)
    requires
        d < 16,
    ensures
        r == hex_digit(d as nat),
{
    if d < 10 {
        (0x30u8 + d) as char
    } else {
        (0x57u8 + d) as char
    }
}

/// A character inside a JSON string.
pub open spec fn json_char(c: char) -> Seq<char> {
    let u = c as u32;
    if c == '"' {
        "\\\""@
    } else if c == '\\' {
        "\\\\"@
    } else if c == '\n' {
        "\\n"@
    } else if c == '\r' {
        "\\r"@
    } else if c == '\t' {
        "\\t"@
    } else if u < 0x20 {
        "\\u00"@.push(hex_digit((u / 16) as nat)).push(hex_digit((u % 16) as nat))
    } else {
        seq![c]
    }
}

/// The characters of a JSON string without its quotes.
pub open spec fn json_escaped(s: Seq<char>) -> Seq<char>
    decreases s.len(),
{
    if s.len() == 0 {
        Seq::empty()
    } else {
        json_escaped(s.drop_last()) + json_char(s.last())
    }
}

/// A JSON string.
pub open spec fn json_text(s: Seq<char>) -> Seq<char> {
    seq!['"'] + json_escaped(s) + seq!['"']
}

/// A JSON string.
pub fn json_string(s: &str) -> (r: String)
    ensures
        r@ == json_text(s@),
{
    let v = chars_of(s);
    let mut out: String = String::new();
    out.push('"');
    let mut i: usize = 0;
    assert(out@ =~= seq!['"'] + json_escaped(v@.take(0)));
    while i < v.len()
        invariant
            i <= v.len(),
            out@ == seq!['"'] + json_escaped(v@.take(i as int)),
        decreases v.len() - i,
    {
        let c: char = v[i];
        let u: u32 = c as u32;
        let ghost before = out@;
        assert(v@.take(i + 1).drop_last() =~= v@.take(i as int));
        assert(v@.take(i + 1).last() == c);
        if c == '"' {
            out.append("\\\"");
        } else if c == '\\' {
            out.append("\\\\");
        } else if c == '\n' {
            out.append("\\n");
        } else if c == '\r' {
            out.append("\\r");
        } else if c == '\t' {
            out.append("\\t");
        } else if u < 0x20 {
            out.append("\\u00");
            out.push(hex_char((u / 16) as u8));
            out.push(hex_char((u % 16) as u8));
        } else {
            out.push(c);
        }
        assert(out@ =~= before + json_char(c));
        assert(before + json_char(c) =~= seq!['"'] + json_escaped(v@.take(i + 1)));
        i = i + 1;
    }
    assert(v@.take(i as int) =~= v@);
    out.push('"');
    assert(out@ =~= json_text(s@));
    out
}

/// Whether a character makes a CSV field need quotes.
pub open spec fn needs_quotes(c: char) -> bool {
    c == ',' || c == '"' || c == '\n' || c == '\r'
}

/// A text with every double quote doubled.
pub open spec fn quotes_doubled(s: Seq<char>) -> Seq<char>
    decreases s.len(),
{
    if s.len() == 0 {
        Seq::empty()
    } else if s.last() == '"' {
        quotes_doubled(s.drop_last()).push('"').push('"')
    } else {
        quotes_doubled(s.drop_last()).push(s.last())
    }
}

/// A CSV field: in quotes where it holds a separator, a quote or a line end.
pub open spec fn csv_text(s: Seq<char>) -> Seq<char> {
    if exists|i: int| 0 <= i < s.len() && needs_quotes(#[trigger] s[i]) {
        seq!['"'] + quotes_doubled(s) + seq!['"']
    } else {
        s
    }
}

/// A CSV field.
pub fn csv_field(s: &str) -> (r: String)
    ensures
        r@ == csv_text(s@),
{
    let v = chars_of(s);
    let mut out: String = String::new();
    out.push('"');
    let mut quote = false;
    let mut i: usize = 0;
    assert(out@ =~= seq!['"'] + quotes_doubled(v@.take(0)));
    while i < v.len()
        invariant
            i <= v.len(),
            quote == exists|j: int| 0 <= j < i && needs_quotes(#[trigger] v@[j]),
            out@ == seq!['"'] + quotes_doubled(v@.take(i as int)),
        decreases v.len() - i,
    {
        let c: char = v[i];
        let ghost before = out@;
        assert(v@.take(i + 1).drop_last() =~= v@.take(i as int));
        assert(v@.take(i + 1).last() == c);
        if c == ',' || c == '"' || c == '\n' || c == '\r' {
            quote = true;
            assert(needs_quotes(v@[i as int]));
        }
        if c == '"' {
            out.push('"');
        }
        out.push(c);
        assert(out@ =~= seq!['"'] + quotes_doubled(v@.take(i + 1)));
        i = i + 1;
    }
    assert(v@.take(i as int) =~= v@);
    if quote {
        out.push('"');
        assert(out@ =~= seq!['"'] + quotes_doubled(s@) + seq!['"']);
        out
    } else {
        s.to_owned()
    }
}

} // verus!
