//! The code generator: turns a tree into component markup.
use vstd::prelude::*;
use vstd::string::*;
use crate::lexer::{Kind, Lexeme, chars_of};
use crate::parser::{Node, NodeV};

verus! {

/// The upper case of a character, as std's `char::to_uppercase` gives it:
/// one or more characters.
pub uninterp spec fn upper_of(c: char) -> Seq<char>;

/// ASCII upper case: `a`..`z` become `A`..`Z`, any other character is kept.
pub open spec fn ascii_upper(c: char) -> char {
    if 'a' <= c && c <= 'z' {
        (((c as u32) - 32) as u8) as char
    } else {
        c
    }
}

/// An ASCII character.
pub open spec fn is_ascii_char(c: char) -> bool {
    (c as u32) < 128
}

/// Relies on std's `char::to_uppercase`, collected into a `String`: the
/// upper case of `c` depends on `c` alone; `a`..`z` become `A`..`Z`, and
/// every other ASCII character is kept.
#[verifier::external_body]
fn to_upper(c: char) -> (r: String)
    ensures
        r@ == upper_of(c),
        is_ascii_char(c) ==> r@ == seq![ascii_upper(c)],
{
    c.to_uppercase().collect::<String>()
}

/// The first character upper-cased, the rest kept.
pub open spec fn first_upper_of(s: Seq<char>) -> Seq<char> {
    if s.len() == 0 {
        s
    } else {
        upper_of(s[0]) + s.drop_first()
    }
}

/// `s` cut at each `-`, with the first character of every piece
/// upper-cased, the pieces joined: the component name of a tag.
pub open spec fn camel(s: Seq<char>) -> Seq<char> {
    camel_prefix(s, s.len() as int, |c: char| upper_of(c))
}

/// The same name where every character of `s` is ASCII, with ASCII upper
/// case.
pub open spec fn camel_ascii(s: Seq<char>) -> Seq<char> {
    camel_prefix(s, s.len() as int, |c: char| seq![ascii_upper(c)])
}

/// The component name of the first `n` characters of `s`, upper case
/// given by `up`: a character that opens a piece (first, or after a `-`)
/// is upper-cased, and each `-` is dropped.
pub open spec fn camel_prefix(s: Seq<char>, n: int, up: spec_fn(char) -> Seq<char>) -> Seq<char>
    decreases n,
{
    if n <= 0 {
        Seq::empty()
    } else {
        camel_prefix(s, n - 1, up) + if s[n - 1] == '-' {
            Seq::empty()
        } else if n - 1 == 0 || s[n - 2] == '-' {
            up(s[n - 1])
        } else {
            seq![s[n - 1]]
        }
    }
}

/// The name under which an attribute is emitted: `bind` + event becomes
/// `on` + event, with `tap` renamed `click` and `click` renamed `keydown`.
pub open spec fn remap(p: Seq<char>) -> Seq<char> {
    if p.len() >= 4 && p.subrange(0, 4) == "bind"@ {
        let n = p.subrange(4, p.len() as int);
        "on"@ + if n == "tap"@ {
            "click"@
        } else if n == "click"@ {
            "keydown"@
        } else {
            n
        }
    } else {
        p
    }
}

/// `s` without each pair `c c`, pairs taken from left to right.
pub open spec fn strip_pairs(s: Seq<char>, c: char) -> Seq<char>
    decreases s.len(),
{
    if s.len() == 0 {
        s
    } else if s.len() >= 2 && s[0] == c && s[1] == c {
        strip_pairs(s.subrange(2, s.len() as int), c)
    } else {
        seq![s[0]] + strip_pairs(s.subrange(1, s.len() as int), c)
    }
}

/// An attribute value with every `{{` and then every `}}` removed.
pub open spec fn unwrap_expr(v: Seq<char>) -> Seq<char> {
    strip_pairs(strip_pairs(v, '{'), '}')
}

/// A directive taken out of the attributes of a tag.
#[derive(Debug, PartialEq)]
pub enum Directive {
    If(String),
    For(String),
}

pub enum DirectiveV {
    If(Seq<char>),
    For(Seq<char>),
}

impl View for Directive {
    type V = DirectiveV;

    open spec fn view(&self) -> DirectiveV {
        match self {
            Directive::If(e) => DirectiveV::If(e@),
            Directive::For(e) => DirectiveV::For(e@),
        }
    }
}

pub open spec fn directive_views(v: Seq<Directive>) -> Seq<DirectiveV> {
    v.map_values(|d: Directive| d@)
}

/// What one attribute adds to a start tag: ` name="value"` with the name
/// remapped and the value unwrapped; `wx:key` is emitted as `key`, and the
/// directives `wx:if` and `wx:for` add nothing.
pub open spec fn attr_text(a: Lexeme) -> Seq<char> {
    match a {
        Lexeme::Attr(n, v) => {
            let p = remap(n);
            let e = unwrap_expr(v);
            if p == "wx:key"@ {
                " key=\""@ + e + "\""@
            } else if p == "wx:if"@ || p == "wx:for"@ {
                Seq::empty()
            } else {
                " "@ + p + "=\""@ + e + "\""@
            }
        },
        _ => Seq::empty(),
    }
}

pub open spec fn attrs_text(a: Seq<Lexeme>) -> Seq<char>
    decreases a.len(),
{
    if a.len() == 0 {
        Seq::empty()
    } else {
        attrs_text(a.drop_last()) + attr_text(a.last())
    }
}

/// The directive of one attribute, if it is one.
pub open spec fn directive_of(a: Lexeme) -> Seq<DirectiveV> {
    match a {
        Lexeme::Attr(n, v) => {
            let p = remap(n);
            if p == "wx:if"@ {
                seq![DirectiveV::If(unwrap_expr(v))]
            } else if p == "wx:for"@ {
                seq![DirectiveV::For(unwrap_expr(v))]
            } else {
                Seq::empty()
            }
        },
        _ => Seq::empty(),
    }
}

/// The directives among the attributes, in order.
pub open spec fn directives(a: Seq<Lexeme>) -> Seq<DirectiveV>
    decreases a.len(),
{
    if a.len() == 0 {
        Seq::empty()
    } else {
        directives(a.drop_last()) + directive_of(a.last())
    }
}

/// `code` under the directives, in order: a condition changes nothing, and
/// the first loop maps `code` over its list and ends the work. The loop
/// form is `{list.map((item)=>code)}`: the closing `)` is emitted, so that
/// the brackets of the output balance, and no `;` follows.
pub open spec fn apply_directives(ds: Seq<DirectiveV>, code: Seq<char>) -> Seq<char>
    decreases ds.len(),
{
    if ds.len() == 0 {
        code
    } else {
        match ds[0] {
            DirectiveV::If(_) => apply_directives(ds.drop_first(), code),
            DirectiveV::For(e) => "{"@ + e + ".map((item)=>"@ + code + ")}"@,
        }
    }
}

pub open spec fn attrs_or_none(a: Option<Seq<Lexeme>>) -> Seq<Lexeme> {
    match a {
        Some(a) => a,
        None => Seq::empty(),
    }
}

/// The markup of a tree. An opening tag gets the full component name
/// (`camel`); a self-closing tag only has its first character upper-cased
/// and keeps any `-`. The two rules differ on purpose, and a self-closing
/// tag emits no children and no closing tag.
pub open spec fn gen(n: NodeV) -> Seq<char>
    decreases n,
{
    let a = attrs_or_none(n.tok.attrs);
    match n.tok.kind {
        Lexeme::Open(name) => {
            let tag = camel(name);
            apply_directives(
                directives(a),
                "<"@ + tag + attrs_text(a) + ">"@ + gen_list(n.children) + "</"@ + tag + ">"@,
            )
        },
        Lexeme::SelfClose(name) => apply_directives(
            directives(a),
            "<"@ + first_upper_of(name) + attrs_text(a) + "/>"@,
        ),
        Lexeme::Text(t) => t,
        _ => Seq::empty(),
    }
}

/// The markup of a list of trees, one after the other.
pub open spec fn gen_list(cs: Seq<NodeV>) -> Seq<char>
    decreases cs,
{
    if cs.len() == 0 {
        Seq::empty()
    } else {
        gen_list(cs.drop_last()) + gen(cs.last())
    }
}

/// Whether two texts are equal.
fn same_text(a: &str, b: &str) -> (r: bool)
    ensures
        r == (a@ == b@),
{
    let x = a.to_owned();
    let y = b.to_owned();
    x.eq(&y)
}

/// `s` without each pair `c c`, pairs taken from left to right.
pub fn strip_pairs_of(s: &str, c: char) -> (r: String)
    ensures
        r@ == strip_pairs(s@, c),
{
    let chars = chars_of(s);
    let n = chars.len();
    let mut out = String::new();
    let mut i: usize = 0;
    assert(s@.subrange(0, n as int) =~= s@);
    assert(out@ + strip_pairs(s@, c) =~= strip_pairs(s@, c));
    while i < n
        invariant
            n == chars@.len(),
            chars@ == s@,
            i <= n,
            strip_pairs(s@, c) == out@ + strip_pairs(s@.subrange(i as int, n as int), c),
        decreases n - i,
    {
        let ghost rest = s@.subrange(i as int, n as int);
        if i + 1 < n && chars[i] == c && chars[i + 1] == c {
            assert(rest.subrange(2, rest.len() as int) =~= s@.subrange(i + 2, n as int));
            i = i + 2;
        } else {
            assert(rest.subrange(1, rest.len() as int) =~= s@.subrange(i + 1, n as int));
            let ghost before = out@;
            out.push(chars[i]);
            assert(before + (seq![chars@[i as int]] + strip_pairs(s@.subrange(i + 1, n as int), c))
                =~= out@ + strip_pairs(s@.subrange(i + 1, n as int), c));
            i = i + 1;
        }
    }
    assert(s@.subrange(n as int, n as int) =~= Seq::<char>::empty());
    assert(out@ + Seq::<char>::empty() =~= out@);
    out
}

/// Conditions leave markup as it is: with no loop among the directives,
/// applying them gives the markup back unchanged.
pub proof fn lemma_conditions_keep_markup(ds: Seq<DirectiveV>, code: Seq<char>)
    requires
        forall|k: int| 0 <= k < ds.len() ==> #[trigger] ds[k] is If,
    ensures
        apply_directives(ds, code) == code,
    decreases ds.len(),
{
    if ds.len() > 0 {
        assert(ds[0] is If);
        assert forall|k: int| 0 <= k < ds.drop_first().len() implies #[trigger] ds.drop_first()[k] is If by {
            assert(ds[k + 1] is If);
        }
        lemma_conditions_keep_markup(ds.drop_first(), code);
    }
}

/// A self-closing tag emits no closing tag and its children, if a tree
/// gives it any, are never emitted; with no loop on it, its markup is the
/// single element `<Name attrs/>`.
pub proof fn self_closing_markup(n: NodeV)
    requires
        n.tok.kind is SelfClose,
    ensures
        gen(n) == gen(NodeV { tok: n.tok, children: Seq::empty() }),
        (forall|k: int|
            0 <= k < directives(attrs_or_none(n.tok.attrs)).len() ==> #[trigger] directives(
                attrs_or_none(n.tok.attrs),
            )[k] is If) ==> gen(n) == "<"@ + first_upper_of(n.tok.kind->SelfClose_0) + attrs_text(
            attrs_or_none(n.tok.attrs),
        ) + "/>"@,
{
    let a = attrs_or_none(n.tok.attrs);
    if forall|k: int| 0 <= k < directives(a).len() ==> #[trigger] directives(a)[k] is If {
        lemma_conditions_keep_markup(
            directives(a),
            "<"@ + first_upper_of(n.tok.kind->SelfClose_0) + attrs_text(a) + "/>"@,
        );
    }
}

/// A tree generator. `code` is left empty: each call returns its own text.
pub struct Generator {
    pub ast: Node,
    pub code: String,
}

impl Generator {
    pub fn new(ast: Node) -> (r: Generator)
        ensures
            r.ast@ == ast@,
            r.code@.len() == 0,
    {
        Generator { ast, code: String::new() }
    }

    /// `s` with its first character upper-cased.
    pub fn first_upper(&self, s: String) -> (r: String)
        ensures
            r@ == first_upper_of(s@),
            s@.len() > 0 && is_ascii_char(s@[0]) ==> r@ == seq![ascii_upper(s@[0])]
                + s@.drop_first(),
    {
        let n = s.as_str().unicode_len();
        if n == 0 {
            return String::new();
        }
        let mut out = String::new();
        let first = to_upper(s.as_str().get_char(0));
        out.append(first.as_str());
        out.append(s.as_str().substring_char(1, n));
        assert(out@ =~= first_upper_of(s@));
        out
    }

    /// The component name of a tag name.
    pub fn camel_case(&self, s: String) -> (r: String)
        ensures
            r@ == camel(s@),
            (forall|k: int| 0 <= k < s@.len() ==> is_ascii_char(#[trigger] s@[k])) ==> r@
                == camel_ascii(s@),
    {
        let chars = chars_of(s.as_str());
        let n = chars.len();
        let mut out = String::new();
        let mut i: usize = 0;
        while i < n
            invariant
                n == chars@.len(),
                chars@ == s@,
                i <= n,
                out@ == camel_prefix(s@, i as int, |c: char| upper_of(c)),
                (forall|k: int| 0 <= k < s@.len() ==> is_ascii_char(#[trigger] s@[k])) ==> out@
                    == camel_prefix(s@, i as int, |c: char| seq![ascii_upper(c)]),
            decreases n - i,
        {
            let c = chars[i];
            if c != '-' {
                if i == 0 || chars[i - 1] == '-' {
                    let up = to_upper(c);
                    out.append(up.as_str());
                } else {
                    out.push(c);
                }
            }
            i = i + 1;
            assert(out@ =~= camel_prefix(s@, i as int, |c: char| upper_of(c)));
            proof {
                if forall|k: int| 0 <= k < s@.len() ==> is_ascii_char(#[trigger] s@[k]) {
                    assert(is_ascii_char(s@[i - 1]));
                    assert(out@ =~= camel_prefix(s@, i as int, |c: char| seq![ascii_upper(c)]));
                }
            }
        }
        out
    }

    /// The name under which an attribute is emitted.
    pub fn wried_prop(&self, p: String) -> (r: String)
        ensures
            r@ == remap(p@),
    {
        let n = p.as_str().unicode_len();
        if n >= 4 && same_text(p.as_str().substring_char(0, 4), "bind") {
            let rest = p.as_str().substring_char(4, n);
            let mut out = "on".to_owned();
            if same_text(rest, "tap") {
                out.append("click");
            } else if same_text(rest, "click") {
                out.append("keydown");
            } else {
                out.append(rest);
            }
            out
        } else {
            p
        }
    }

    /// The expression of an attribute value: `{{` and `}}` removed.
    pub fn take_expression(&self, e: String) -> (r: String)
        ensures
            r@ == unwrap_expr(e@),
    {
        let open = strip_pairs_of(e.as_str(), '{');
        strip_pairs_of(open.as_str(), '}')
    }

    /// `code` under the directives, taken in order.
    pub fn generate_directs(&self, directs: Vec<Directive>, code: String) -> (r: String)
        ensures
            r@ == apply_directives(directive_views(directs@), code@),
    {
        let ghost ds = directive_views(directs@);
        let n = directs.len();
        let mut i: usize = 0;
        assert(ds.subrange(0, n as int) =~= ds);
        while i < n
            invariant
                n == directs@.len(),
                ds == directive_views(directs@),
                i <= n,
                apply_directives(ds, code@) == apply_directives(ds.subrange(i as int, n as int), code@),
            decreases n - i,
        {
            assert(ds.subrange(i as int, n as int).drop_first() =~= ds.subrange(i + 1, n as int));
            match &directs[i] {
                Directive::If(_) => {},
                Directive::For(e) => {
                    let mut out = "{".to_owned();
                    out.append(e.as_str());
                    out.append(".map((item)=>");
                    out.append(code.as_str());
                    out.append(")}");
                    return out;
                },
            }
            i = i + 1;
        }
        code
    }

    /// Appends the attributes of a start tag to `out`, and collects its
    /// directives into `directs`.
    fn emit_attributes(&self, attrs: &Vec<Kind>, out: &mut String, directs: &mut Vec<Directive>)
        ensures
            final(out)@ == old(out)@ + attrs_text(crate::lexer::kinds(attrs@)),
            directive_views(final(directs)@) == directive_views(old(directs)@) + directives(
                crate::lexer::kinds(attrs@),
            ),
    {
        let ghost a = crate::lexer::kinds(attrs@);
        let n = attrs.len();
        let mut i: usize = 0;
        assert(a.subrange(0, 0) =~= Seq::<Lexeme>::empty());
        assert(old(out)@ + Seq::<char>::empty() =~= old(out)@);
        assert(directive_views(old(directs)@) + Seq::<DirectiveV>::empty() =~= directive_views(
            old(directs)@,
        ));
        while i < n
            invariant
                n == attrs@.len(),
                a == crate::lexer::kinds(attrs@),
                i <= n,
                out@ == old(out)@ + attrs_text(a.subrange(0, i as int)),
                directive_views(directs@) == directive_views(old(directs)@) + directives(
                    a.subrange(0, i as int),
                ),
            decreases n - i,
        {
            let ghost o0 = out@;
            let ghost d0 = directive_views(directs@);
            assert(a.subrange(0, i + 1).drop_last() =~= a.subrange(0, i as int));
            assert(a.subrange(0, i + 1).last() == a[i as int]);
            if let Kind::Attribute(name, value) = &attrs[i] {
                let prop = self.wried_prop(name.clone());
                let expr = self.take_expression(value.clone());
                if same_text(prop.as_str(), "wx:key") {
                    out.append(" key=\"");
                    out.append(expr.as_str());
                    out.append("\"");
                    assert(out@ =~= o0 + attr_text(a[i as int]));
                    assert(prop@ != "wx:if"@ && prop@ != "wx:for"@) by {
                        reveal_strlit("wx:key");
                        reveal_strlit("wx:if");
                        reveal_strlit("wx:for");
                        assert(prop@.len() != "wx:if"@.len());
                        assert(prop@[3] != "wx:for"@[3]);
                    }
                    assert(directive_views(directs@) =~= d0 + directive_of(a[i as int]));
                } else if same_text(prop.as_str(), "wx:if") {
                    directs.push(Directive::If(expr));
                    assert(directive_views(directs@) =~= d0 + directive_of(a[i as int]));
                } else if same_text(prop.as_str(), "wx:for") {
                    directs.push(Directive::For(expr));
                    assert(directive_views(directs@) =~= d0 + directive_of(a[i as int]));
                } else {
                    out.append(" ");
                    out.append(prop.as_str());
                    out.append("=\"");
                    out.append(expr.as_str());
                    out.append("\"");
                    assert(out@ =~= o0 + attr_text(a[i as int]));
                    assert(directive_views(directs@) =~= d0 + directive_of(a[i as int]));
                }
            }
            assert(out@ =~= o0 + attr_text(a[i as int]));
            assert(directive_views(directs@) =~= d0 + directive_of(a[i as int]));
            i = i + 1;
        }
        assert(a.subrange(0, n as int) =~= a);
    }

    /// The markup of the tree at `node`.
    fn generate_ref(&self, node: &Node) -> (r: String)
        ensures
            r@ == gen(node@),
        decreases node,
    {
        let ghost nv = node@;
        let ghost a = attrs_or_none(node.base@.attrs);
        let mut directs: Vec<Directive> = Vec::new();
        match &node.base.kind {
            Kind::OpenTag(name) => {
                let tag = self.camel_case(name.clone());
                let mut code = "<".to_owned();
                code.append(tag.as_str());
                if let Some(attrs) = &node.base.attributes {
                    self.emit_attributes(attrs, &mut code, &mut directs);
                } else {
                    assert(directive_views(directs@) =~= directives(a));
                    assert(code@ + attrs_text(a) =~= code@);
                }
                code.append(">");
                let ghost head = code@;
                let n = node.children.len();
                let mut i: usize = 0;
                assert(nv.children.subrange(0, 0) =~= Seq::<NodeV>::empty());
                assert(head + Seq::<char>::empty() =~= head);
                while i < n
                    invariant
                        n == node.children@.len(),
                        nv == node@,
                        nv.children.len() == n,
                        i <= n,
                        code@ == head + gen_list(nv.children.subrange(0, i as int)),
                    decreases n - i,
                {
                    proof {
                        assert(decreases_to!(node => node.children));
                        assert(decreases_to!(node.children => node.children@));
                        assert(decreases_to!(node.children@ => node.children@[i as int]));
                    }
                    let child = self.generate_ref(&node.children[i]);
                    assert(nv.children[i as int] == node.children@[i as int]@);
                    assert(nv.children.subrange(0, i + 1).drop_last() =~= nv.children.subrange(
                        0,
                        i as int,
                    ));
                    let ghost c0 = code@;
                    code.append(child.as_str());
                    assert(code@ =~= c0 + child@);
                    i = i + 1;
                }
                assert(nv.children.subrange(0, n as int) =~= nv.children);
                code.append("</");
                code.append(tag.as_str());
                code.append(">");
                assert(code@ =~= "<"@ + camel(name@) + attrs_text(a) + ">"@ + gen_list(nv.children)
                    + "</"@ + camel(name@) + ">"@);
                self.generate_directs(directs, code)
            },
            Kind::SelfCloseTag(name) => {
                let tag = self.first_upper(name.clone());
                let mut code = "<".to_owned();
                code.append(tag.as_str());
                if let Some(attrs) = &node.base.attributes {
                    self.emit_attributes(attrs, &mut code, &mut directs);
                } else {
                    assert(directive_views(directs@) =~= directives(a));
                    assert(code@ + attrs_text(a) =~= code@);
                }
                code.append("/>");
                assert(code@ =~= "<"@ + first_upper_of(name@) + attrs_text(a) + "/>"@);
                self.generate_directs(directs, code)
            },
            Kind::Text(text) => text.clone(),
            _ => String::new(),
        }
    }

    /// The markup of the tree held by this generator.
    pub fn generate_fre(&mut self) -> (r: String)
        ensures
            r@ == gen(old(self).ast@),
            *final(self) == *old(self),
    {
        self.generate_ref(&self.ast)
    }

    /// The markup of the tree `node`.
    pub fn generate_node(&mut self, node: Node) -> (r: String)
        ensures
            r@ == gen(node@),
            *final(self) == *old(self),
    {
        self.generate_ref(&node)
    }
}

} // verus!
