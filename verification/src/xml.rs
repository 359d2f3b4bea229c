//! A minimal XML element tree for the document format: elements with ordered
//! attributes and child elements, no text content (the format is
//! attribute-only). A verified printer renders a tree with a fixed 2-space
//! indent per nesting level; the parser reads that shape back, tolerating
//! arbitrary whitespace between tags.

use vstd::prelude::*;

verus! {

broadcast use vstd::std_specs::vec::group_vec_axioms, vstd::seq::group_seq_axioms;

/// Decode received structurally invalid input; no partial document is
/// returned.
#[derive(Debug, Clone, Copy, PartialEq, Eq, Structural)]
pub enum FormatError {
    Malformed,
}

/// One attribute: a name and a raw (unescaped) value.
#[derive(Debug, Clone, PartialEq)]
pub struct XmlAttr {
    pub name: String,
    pub value: String,
}

/// One element: a name, ordered attributes, ordered child elements.
#[derive(Debug, PartialEq)]
pub struct XmlElem {
    pub name: String,
    pub attrs: Vec<XmlAttr>,
    pub children: Vec<XmlElem>,
}

/// The markup escape of one attribute-value character.
pub open spec fn esc_char(c: char) -> Seq<char> {
    if c == '&' {
        seq!['&', 'a', 'm', 'p', ';']
    } else if c == '<' {
        seq!['&', 'l', 't', ';']
    } else if c == '>' {
        seq!['&', 'g', 't', ';']
    } else if c == '"' {
        seq!['&', 'q', 'u', 'o', 't', ';']
    } else if c == '\'' {
        seq!['&', 'a', 'p', 'o', 's', ';']
    } else {
        seq![c]
    }
}

/// The markup escape of an attribute value.
pub open spec fn escape(s: Seq<char>) -> Seq<char>
    decreases s.len(),
{
    if s.len() == 0 {
        Seq::empty()
    } else {
        escape(s.drop_last()) + esc_char(s.last())
    }
}

/// The printed form of an attribute list: ` name="value"` for each.
pub open spec fn print_attrs(attrs: Seq<XmlAttr>) -> Seq<char>
    decreases attrs.len(),
{
    if attrs.len() == 0 {
        Seq::empty()
    } else {
        print_attrs(attrs.drop_last()) + seq![' '] + attrs.last().name@ + seq!['=', '"'] + escape(
            attrs.last().value@,
        ) + seq!['"']
    }
}

/// The printed form of an element at the given indentation prefix: childless
/// elements self-close; others hold their children, each indented one step
/// further, between an open and a close tag.
pub open spec fn print_elem(e: XmlElem, pad: Seq<char>) -> Seq<char>
    decreases e,
{
    let open_part = pad + seq!['<'] + e.name@ + print_attrs(e.attrs@);
    if e.children@.len() == 0 {
        open_part + seq!['/', '>', '\n']
    } else {
        open_part + seq!['>', '\n'] + print_children(e.children@, pad + seq![' ', ' ']) + pad
            + seq!['<', '/'] + e.name@ + seq!['>', '\n']
    }
}

pub open spec fn print_children(es: Seq<XmlElem>, pad: Seq<char>) -> Seq<char>
    decreases es,
{
    if es.len() == 0 {
        Seq::empty()
    } else {
        print_children(es.drop_last(), pad) + print_elem(es.last(), pad)
    }
}

/// The fixed declaration line every rendered document starts with.
pub open spec fn xml_header() -> Seq<char> {
    "<?xml version=\"1.0\" encoding=\"UTF-8\"?>\n\n"@
}

/// The characters of the string, in order.
pub fn str_to_chars(s: &str) -> (r: Vec<char>)
    ensures
        r@ == s@,
{
    let n = s.unicode_len();
    let mut out: Vec<char> = Vec::new();
    let mut i: usize = 0;
    while i < n
        invariant
            n == s@.len(),
            i <= n,
            out@ == s@.take(i as int),
        decreases n - i,
    {
        out.push(s.get_char(i));
        proof {
            assert(out@ =~= s@.take(i + 1));
        }
        i += 1;
    }
    proof {
        assert(s@.take(n as int) =~= s@);
    }
    out
}

/// Relies on Iterator::collect for String: the string holding exactly these
/// characters, in order.
#[verifier::external_body]
pub fn chars_to_string(v: &Vec<char>) -> (r: String)
    ensures
        r@ == v@,
{
    v.iter().collect()
}

fn write_chars(v: &Vec<char>, out: &mut Vec<char>)
    ensures
        final(out)@ == old(out)@ + v@,
{
    let mut i: usize = 0;
    while i < v.len()
        invariant
            i <= v.len(),
            out@ == old(out)@ + v@.take(i as int),
        decreases v.len() - i,
    {
        out.push(v[i]);
        proof {
            assert(out@ =~= old(out)@ + v@.take(i + 1));
        }
        i += 1;
    }
    proof {
        assert(old(out)@ + v@.take(v@.len() as int) =~= old(out)@ + v@);
    }
}

fn write_str(s: &str, out: &mut Vec<char>)
    ensures
        final(out)@ == old(out)@ + s@,
{
    let cs = str_to_chars(s);
    write_chars(&cs, out);
}

fn write_escaped(s: &str, out: &mut Vec<char>)
    ensures
        final(out)@ == old(out)@ + escape(s@),
{
    let cs = str_to_chars(s);
    let mut i: usize = 0;
    while i < cs.len()
        invariant
            i <= cs.len(),
            cs@ == s@,
            out@ == old(out)@ + escape(s@.take(i as int)),
        decreases cs.len() - i,
    {
        let c = cs[i];
        proof {
            assert(s@.take(i + 1).drop_last() =~= s@.take(i as int));
            assert(s@.take(i + 1).last() == s@[i as int]);
        }
        if c == '&' {
            out.push('&');
            out.push('a');
            out.push('m');
            out.push('p');
            out.push(';');
        } else if c == '<' {
            out.push('&');
            out.push('l');
            out.push('t');
            out.push(';');
        } else if c == '>' {
            out.push('&');
            out.push('g');
            out.push('t');
            out.push(';');
        } else if c == '"' {
            out.push('&');
            out.push('q');
            out.push('u');
            out.push('o');
            out.push('t');
            out.push(';');
        } else if c == '\'' {
            out.push('&');
            out.push('a');
            out.push('p');
            out.push('o');
            out.push('s');
            out.push(';');
        } else {
            out.push(c);
        }
        proof {
            assert(out@ =~= old(out)@ + escape(s@.take(i + 1)));
        }
        i += 1;
    }
    proof {
        assert(s@.take(s@.len() as int) =~= s@);
    }
}

/// Renders an element at the given indentation prefix, appending to `out`.
pub fn write_elem(e: &XmlElem, pad: &mut Vec<char>, out: &mut Vec<char>)
    ensures
        final(pad)@ == old(pad)@,
        final(out)@ == old(out)@ + print_elem(*e, old(pad)@),
    decreases *e,
{
    write_chars(pad, out);
    out.push('<');
    write_str(e.name.as_str(), out);
    let ghost open_head = old(out)@ + old(pad)@ + seq!['<'] + e.name@;
    proof {
        assert(out@ =~= open_head + print_attrs(e.attrs@.take(0)));
    }
    let mut i: usize = 0;
    while i < e.attrs.len()
        invariant
            i <= e.attrs.len(),
            pad@ == old(pad)@,
            out@ == open_head + print_attrs(e.attrs@.take(i as int)),
        decreases e.attrs.len() - i,
    {
        proof {
            assert(e.attrs@.take(i + 1).drop_last() =~= e.attrs@.take(i as int));
            assert(e.attrs@.take(i + 1).last() == e.attrs@[i as int]);
        }
        out.push(' ');
        write_str(e.attrs[i].name.as_str(), out);
        out.push('=');
        out.push('"');
        write_escaped(e.attrs[i].value.as_str(), out);
        out.push('"');
        proof {
            assert(out@ =~= open_head + print_attrs(e.attrs@.take(i + 1)));
        }
        i += 1;
    }
    proof {
        assert(e.attrs@.take(e.attrs@.len() as int) =~= e.attrs@);
        assert(out@ == open_head + print_attrs(e.attrs@));
    }
    if e.children.len() == 0 {
        out.push('/');
        out.push('>');
        out.push('\n');
        proof {
            assert(out@ =~= old(out)@ + print_elem(*e, old(pad)@));
        }
    } else {
        out.push('>');
        out.push('\n');
        let ghost body_head = out@;
        pad.push(' ');
        pad.push(' ');
        let ghost pad2 = pad@;
        proof {
            assert(pad2 =~= old(pad)@ + seq![' ', ' ']);
            assert(out@ =~= body_head + print_children(e.children@.take(0), pad2));
        }
        let mut j: usize = 0;
        while j < e.children.len()
            invariant
                j <= e.children.len(),
                pad@ == pad2,
                pad2 == old(pad)@ + seq![' ', ' '],
                out@ == body_head + print_children(e.children@.take(j as int), pad2),
            decreases e.children.len() - j,
        {
            proof {
                assert(e.children@.take(j + 1).drop_last() =~= e.children@.take(j as int));
                assert(e.children@.take(j + 1).last() == e.children@[j as int]);
            }
            write_elem(&e.children[j], pad, out);
            proof {
                assert(out@ =~= body_head + print_children(e.children@.take(j + 1), pad2));
            }
            j += 1;
        }
        proof {
            assert(e.children@.take(e.children@.len() as int) =~= e.children@);
        }
        pad.pop();
        pad.pop();
        proof {
            assert(pad@ =~= old(pad)@);
        }
        write_chars(pad, out);
        out.push('<');
        out.push('/');
        write_str(e.name.as_str(), out);
        out.push('>');
        out.push('\n');
        proof {
            assert(out@ =~= old(out)@ + print_elem(*e, old(pad)@));
        }
    }
}

/// Renders a whole document: the declaration line, then the root element.
pub fn render_document(root: &XmlElem) -> (r: String)
    ensures
        r@ == xml_header() + print_elem(*root, Seq::empty()),
{
    let mut out: Vec<char> = Vec::new();
    write_str("<?xml version=\"1.0\" encoding=\"UTF-8\"?>\n\n", &mut out);
    let mut pad: Vec<char> = Vec::new();
    write_elem(root, &mut pad, &mut out);
    proof {
        assert(out@ =~= xml_header() + print_elem(*root, Seq::empty()));
    }
    chars_to_string(&out)
}

fn is_ws(c: char) -> (r: bool) {
    c == ' ' || c == '\n' || c == '\t' || c == '\r'
}

fn is_name_char(c: char) -> (r: bool) {
    !(c == ' ' || c == '\n' || c == '\t' || c == '\r' || c == '<' || c == '>' || c == '/' || c
        == '=' || c == '"' || c == '?')
}

fn skip_ws(s: &Vec<char>, pos: usize) -> (r: usize)
    requires
        pos <= s@.len(),
    ensures
        pos <= r <= s@.len(),
{
    let mut p = pos;
    while p < s.len() && (s[p] == ' ' || s[p] == '\n' || s[p] == '\t' || s[p] == '\r')
        invariant
            pos <= p <= s@.len(),
        decreases s@.len() - p,
    {
        p += 1;
    }
    p
}

fn parse_name(s: &Vec<char>, pos: usize) -> (r: Result<(String, usize), FormatError>)
    requires
        pos <= s@.len(),
    ensures
        r is Ok ==> pos < r.unwrap().1 <= s@.len(),
{
    let mut p = pos;
    let mut name: Vec<char> = Vec::new();
    while p < s.len() && is_name_char(s[p])
        invariant
            pos <= p <= s@.len(),
        decreases s@.len() - p,
    {
        name.push(s[p]);
        p += 1;
    }
    if p == pos {
        Err(FormatError::Malformed)
    } else {
        Ok((chars_to_string(&name), p))
    }
}

/// Reads an attribute value up to the closing quote, undoing the markup
/// escapes; any other entity is malformed.
fn parse_value(s: &Vec<char>, pos: usize) -> (r: Result<(String, usize), FormatError>)
    requires
        pos <= s@.len(),
    ensures
        r is Ok ==> pos < r.unwrap().1 <= s@.len(),
{
    let mut p = pos;
    let mut value: Vec<char> = Vec::new();
    while p < s.len() && s[p] != '"'
        invariant
            pos <= p <= s@.len(),
        decreases s@.len() - p,
    {
        if s[p] == '&' {
            let mut ent: Vec<char> = Vec::new();
            let mut q = p + 1;
            while q < s.len() && s[q] != ';' && ent.len() < 6
                invariant
                    p < q <= s@.len(),
                    ent@.len() <= q - p,
                decreases s@.len() - q,
            {
                ent.push(s[q]);
                q += 1;
            }
            if q >= s.len() || s[q] != ';' {
                return Err(FormatError::Malformed);
            }
            if ent.len() == 3 && ent[0] == 'a' && ent[1] == 'm' && ent[2] == 'p' {
                value.push('&');
            } else if ent.len() == 2 && ent[0] == 'l' && ent[1] == 't' {
                value.push('<');
            } else if ent.len() == 2 && ent[0] == 'g' && ent[1] == 't' {
                value.push('>');
            } else if ent.len() == 4 && ent[0] == 'q' && ent[1] == 'u' && ent[2] == 'o' && ent[3]
                == 't' {
                value.push('"');
            } else if ent.len() == 4 && ent[0] == 'a' && ent[1] == 'p' && ent[2] == 'o' && ent[3]
                == 's' {
                value.push('\'');
            } else {
                return Err(FormatError::Malformed);
            }
            p = q + 1;
        } else {
            value.push(s[p]);
            p += 1;
        }
    }
    if p >= s.len() {
        return Err(FormatError::Malformed);
    }
    // p sits on the closing quote
    Ok((chars_to_string(&value), p + 1))
}

fn parse_attrs(s: &Vec<char>, pos: usize) -> (r: Result<(Vec<XmlAttr>, usize), FormatError>)
    requires
        pos <= s@.len(),
    ensures
        r is Ok ==> pos <= r.unwrap().1 < s@.len(),
        r is Ok ==> (s@[r.unwrap().1 as int] == '/' || s@[r.unwrap().1 as int] == '>'),
{
    let mut p = pos;
    let mut attrs: Vec<XmlAttr> = Vec::new();
    loop
        invariant
            pos <= p <= s@.len(),
        decreases s@.len() - p,
    {
        p = skip_ws(s, p);
        if p >= s.len() {
            return Err(FormatError::Malformed);
        }
        if s[p] == '/' || s[p] == '>' {
            return Ok((attrs, p));
        }
        let (aname, p2) = match parse_name(s, p) {
            Ok(v) => v,
            Err(e) => {
                return Err(e);
            },
        };
        p = p2;
        if p >= s.len() || s[p] != '=' {
            return Err(FormatError::Malformed);
        }
        if p + 1 >= s.len() || s[p + 1] != '"' {
            return Err(FormatError::Malformed);
        }
        p += 2;
        let (avalue, p3) = match parse_value(s, p) {
            Ok(v) => v,
            Err(e) => {
                return Err(e);
            },
        };
        p = p3;
        attrs.push(XmlAttr { name: aname, value: avalue });
    }
}

/// Reads one element starting at the next `<`. Children may be nested
/// elements; text content is not part of the format and is rejected.
pub fn parse_elem(s: &Vec<char>, pos: usize) -> (r: Result<(XmlElem, usize), FormatError>)
    requires
        pos <= s@.len(),
    ensures
        r is Ok ==> pos < r.unwrap().1 <= s@.len(),
    decreases s@.len() - pos,
{
    let mut p = skip_ws(s, pos);
    if p >= s.len() || s[p] != '<' {
        return Err(FormatError::Malformed);
    }
    p += 1;
    let (name, p1) = match parse_name(s, p) {
        Ok(v) => v,
        Err(e) => {
            return Err(e);
        },
    };
    p = p1;
    let (attrs, pa) = match parse_attrs(s, p) {
        Ok(v) => v,
        Err(e) => {
            return Err(e);
        },
    };
    p = pa;
    if s[p] == '/' {
        if p + 1 >= s.len() || s[p + 1] != '>' {
            return Err(FormatError::Malformed);
        }
        return Ok((XmlElem { name, attrs, children: Vec::new() }, p + 2));
    }
    // s[p] == '>' : children until the matching close tag
    p += 1;
    let mut children: Vec<XmlElem> = Vec::new();
    loop
        invariant
            pos < p <= s@.len(),
        decreases s@.len() - p,
    {
        p = skip_ws(s, p);
        if p >= s.len() || s[p] != '<' {
            return Err(FormatError::Malformed);
        }
        if p + 1 >= s.len() {
            return Err(FormatError::Malformed);
        }
        if s[p + 1] == '/' {
            // close tag
            let (cname, p4) = match parse_name(s, p + 2) {
                Ok(v) => v,
                Err(e) => {
                    return Err(e);
                },
            };
            if !cname.eq(&name) {
                return Err(FormatError::Malformed);
            }
            if p4 >= s.len() || s[p4] != '>' {
                return Err(FormatError::Malformed);
            }
            return Ok((XmlElem { name, attrs, children }, p4 + 1));
        }
        let (child, p5) = match parse_elem(s, p) {
            Ok(v) => v,
            Err(e) => {
                return Err(e);
            },
        };
        children.push(child);
        p = p5;
    }
}

/// Reads a whole document: an optional declaration line, then the root
/// element, then trailing whitespace only.
pub fn parse_document(text: &str) -> (r: Result<XmlElem, FormatError>) {
    let s = str_to_chars(text);
    let mut p = skip_ws(&s, 0);
    if p < s.len() && p + 1 < s.len() && s[p] == '<' && s[p + 1] == '?' {
        // declaration: consumed up to the first '>'
        while p < s.len() && s[p] != '>'
            invariant
                p <= s@.len(),
            decreases s@.len() - p,
        {
            p += 1;
        }
        if p >= s.len() {
            return Err(FormatError::Malformed);
        }
        p += 1;
    }
    let (root, p6) = match parse_elem(&s, p) {
        Ok(v) => v,
        Err(e) => {
            return Err(e);
        },
    };
    let rest = skip_ws(&s, p6);
    if rest != s.len() {
        return Err(FormatError::Malformed);
    }
    Ok(root)
}

} // verus!
