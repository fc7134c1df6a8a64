//! Declarations of tools: from the source of a function to the name, the
//! description and the parameters that a model gets to know.
use crate::json::{self, array_of, json_quote};
use crate::openai::{ToolDef, ToolDefView};
use crate::text::{
    self, copy_str, from_chars, join_strings, split_chars, str_eq, sub_chars, to_chars,
    trim_start_chars,
};
use crate::types;
use quote::ToTokens;
use vstd::prelude::*;

verus! {

// ---------------------------------------------------------------------------
// Source
// ---------------------------------------------------------------------------

/// An attribute or an argument of one: its name, where that is one word, and
/// the string that is assigned to it, where one is.
#[derive(Debug)]
pub struct MetaSyntax {
    /// The name.
    pub path: Option<String>,
    /// The string.
    pub value: Option<String>,
}

/// What an attribute says.
#[verifier::ext_equal]
pub struct MetaSyntaxView {
    pub path: Option<Seq<char>>,
    pub value: Option<Seq<char>>,
}

impl View for MetaSyntax {
    type V = MetaSyntaxView;

    open spec fn view(&self) -> MetaSyntaxView {
        MetaSyntaxView { path: types::opt_view(self.path), value: types::opt_view(self.value) }
    }
}

/// What a list of attributes says.
pub open spec fn metas_syntax_view(v: Seq<MetaSyntax>) -> Seq<MetaSyntaxView> {
    v.map_values(|m: MetaSyntax| m@)
}

/// The source of a function, as far as it matters to a tool.
#[derive(Debug)]
pub struct FnSyntax {
    /// Its name.
    pub name: String,
    /// The texts of its attributes; comments of documentation are attributes
    /// named `doc`.
    pub attrs: Vec<String>,
    /// Its parameters: the name and the type of each, where the parameter is a
    /// plain name.
    pub params: Vec<Option<(String, String)>>,
    /// Its body, with the braces.
    pub body: String,
}

/// What the source of a function says.
#[verifier::ext_equal]
pub struct FnSyntaxView {
    pub name: Seq<char>,
    pub attrs: Seq<Seq<char>>,
    pub params: Seq<Option<(Seq<char>, Seq<char>)>>,
    pub body: Seq<char>,
}

/// What a parameter says.
pub open spec fn param_view(p: Option<(String, String)>) -> Option<(Seq<char>, Seq<char>)> {
    match p {
        Some(x) => Some((x.0@, x.1@)),
        None => None,
    }
}

/// What a list of parameters says.
pub open spec fn params_view(v: Seq<Option<(String, String)>>) -> Seq<
    Option<(Seq<char>, Seq<char>)>,
> {
    v.map_values(|p: Option<(String, String)>| param_view(p))
}

impl View for FnSyntax {
    type V = FnSyntaxView;

    open spec fn view(&self) -> FnSyntaxView {
        FnSyntaxView {
            name: self.name@,
            attrs: text::views(self.attrs@),
            params: params_view(self.params@),
            body: self.body@,
        }
    }
}

/// The arguments of an attribute, or nothing where its text is none.
pub uninterp spec fn parsed_metas(attr: Seq<char>) -> Option<Seq<MetaSyntaxView>>;

/// `syn`'s parser of a list of `Meta` items between commas: the name of each,
/// where it is one word, and the string that is assigned to it. The result
/// depends on the text alone.
#[verifier::external_body]
fn parse_metas(attr: &str) -> (r: Option<Vec<MetaSyntax>>)
    ensures
        match r {
            Some(v) => parsed_metas(attr@) == Some(metas_syntax_view(v@)),
            None => parsed_metas(attr@) is None,
        },
{
    let list = syn::punctuated::Punctuated::<syn::Meta, syn::token::Comma>::parse_terminated;
    let metas = syn::parse::Parser::parse_str(list, attr).ok()?;
    Some(metas.iter().map(|m| match m {
        syn::Meta::NameValue(nv) => MetaSyntax {
            path: nv.path.get_ident().map(|i| i.to_string()),
            value: match &nv.value {
                syn::Expr::Lit(syn::ExprLit { lit: syn::Lit::Str(s), .. }) => Some(s.value()),
                _ => None,
            },
        },
        m => MetaSyntax { path: m.path().get_ident().map(|i| i.to_string()), value: None },
    }).collect())
}

/// The source of a function that a text holds, or why it holds none.
pub uninterp spec fn parsed_fn(item: Seq<char>) -> Result<FnSyntaxView, Seq<char>>;

/// `syn::parse_str` into an `ItemFn`: the name of the function, its attributes,
/// its parameters and its body, as `quote::ToTokens` writes attributes, types and
/// the body; or the message of the error. `proc_macro2` is held to its own reader
/// and writer of tokens, so the result depends on the text alone.
#[verifier::external_body]
fn parse_fn(item: &str) -> (r: Result<FnSyntax, String>)
    ensures
        match r {
            Ok(f) => parsed_fn(item@) == Ok::<FnSyntaxView, Seq<char>>(f@),
            Err(e) => parsed_fn(item@) == Err::<FnSyntaxView, Seq<char>>(e@),
        },
{
    proc_macro2::fallback::force();
    let f = syn::parse_str::<syn::ItemFn>(item).map_err(|e| e.to_string())?;
    let params = f.sig.inputs.iter().map(|a| match a {
        syn::FnArg::Typed(t) => match &*t.pat {
            syn::Pat::Ident(p) => Some((p.ident.to_string(), t.ty.to_token_stream().to_string())),
            _ => None,
        },
        _ => None,
    });
    let attrs = f.attrs.iter().map(|a| a.meta.to_token_stream().to_string());
    Ok(FnSyntax {
        name: f.sig.ident.to_string(), attrs: attrs.collect(), params: params.collect(),
        body: f.block.to_token_stream().to_string(),
    })
}

// ---------------------------------------------------------------------------
// Declarations
// ---------------------------------------------------------------------------

/// A character in upper case, which may be more than one.
pub uninterp spec fn upper_char(c: char) -> Seq<char>;

/// `char::to_uppercase`: the characters of the upper case of a character, in
/// order. They depend on the character alone.
#[verifier::external_body]
fn to_upper(c: char) -> (r: String)
    ensures
        r@ == upper_char(c),
{
    c.to_uppercase().collect()
}

/// The words of a list without those that are empty, each with its first
/// character in upper case, one after the other.
pub open spec fn pascal_words(words: Seq<Seq<char>>) -> Seq<char>
    decreases words.len(),
{
    if words.len() == 0 {
        Seq::empty()
    } else {
        let w = words.last();
        if w.len() == 0 {
            pascal_words(words.drop_last())
        } else {
            pascal_words(words.drop_last()) + upper_char(w[0]) + w.skip(1)
        }
    }
}

/// A name with underscores in the form of the name of a type.
pub open spec fn pascal_case(s: Seq<char>) -> Seq<char> {
    pascal_words(text::split(s, '_'))
}

/// A word with its first character replaced by a text, its upper case.
pub fn capitalized(word: &str, upper: &str) -> (r: String)
    requires
        word@.len() > 0,
    ensures
        r@ == upper@ + word@.skip(1),
{
    let v = to_chars(word);
    let rest = sub_chars(&v, 1, v.len());
    assert(rest@ =~= word@.skip(1));
    let tail = from_chars(&rest);
    let mut s = copy_str(upper);
    s.append(&tail);
    s
}

/// A name with underscores in the form of the name of a type: `file_read`
/// becomes `FileRead`.
pub fn to_pascal_case(s: &str) -> (r: String)
    ensures
        r@ == pascal_case(s@),
{
    let v = to_chars(s);
    let words = split_chars(&v, '_');
    let ghost all = text::chars_views(words@);
    let mut r = String::new();
    let mut i: usize = 0;
    assert(r@ =~= pascal_words(all.take(0)));
    while i < words.len()
        invariant
            i <= words@.len(),
            all == text::chars_views(words@),
            r@ == pascal_words(all.take(i as int)),
        decreases words@.len() - i,
    {
        let w = &words[i];
        let ghost before = r@;
        proof {
            assert(all.take(i + 1).drop_last() =~= all.take(i as int));
            assert(all.take(i + 1).last() == w@);
        }
        if w.len() > 0 {
            let upper = to_upper(w[0]);
            let word = from_chars(w);
            let c = capitalized(&word, &upper);
            r.append(&c);
            assert(before + (upper@ + w@.skip(1)) =~= before + upper@ + w@.skip(1));
        }
        i += 1;
    }
    assert(all.take(words@.len() as int) =~= all);
    r
}

/// The lines of documentation among some attributes, without the whitespace at
/// the beginning of each.
pub open spec fn doc_lines(attrs: Seq<MetaSyntaxView>) -> Seq<Seq<char>>
    decreases attrs.len(),
{
    if attrs.len() == 0 {
        Seq::empty()
    } else {
        let before = doc_lines(attrs.drop_last());
        if attrs.last().path == Some("doc"@) {
            match attrs.last().value {
                Some(v) => before.push(text::trim_start(v)),
                None => before,
            }
        } else {
            before
        }
    }
}

/// Whether an attribute has a name.
fn is_named(m: &MetaSyntax, name: &str) -> (r: bool)
    ensures
        r == (m@.path == Some(name@)),
{
    match &m.path {
        Some(p) => str_eq(p, name),
        None => false,
    }
}

/// The description of a tool: the lines of its documentation.
pub fn extract_description(attrs: &[MetaSyntax]) -> (r: String)
    ensures
        r@ == text::join(doc_lines(metas_syntax_view(attrs@)), "\n"@),
{
    let ghost all = metas_syntax_view(attrs@);
    let mut lines: Vec<String> = Vec::new();
    let mut i: usize = 0;
    assert(text::views(lines@) =~= doc_lines(all.take(0)));
    while i < attrs.len()
        invariant
            i <= attrs@.len(),
            all == metas_syntax_view(attrs@),
            text::views(lines@) == doc_lines(all.take(i as int)),
        decreases attrs@.len() - i,
    {
        proof {
            assert(all.take(i + 1).drop_last() =~= all.take(i as int));
            assert(all.take(i + 1).last() == attrs@[i as int]@);
        }
        if is_named(&attrs[i], "doc") {
            if let Some(v) = &attrs[i].value {
                let chars = to_chars(v);
                let t = trim_start_chars(&chars);
                let ghost before = lines@;
                lines.push(from_chars(&t));
                assert(text::views(lines@) =~= text::views(before).push(t@));
            }
        }
        i += 1;
    }
    assert(all.take(attrs@.len() as int) =~= all);
    join_strings(&lines, "\n")
}

/// The name that the arguments of the attribute give to the tool: the last one
/// that they assign.
pub open spec fn name_override(metas: Seq<MetaSyntaxView>) -> Option<Seq<char>>
    decreases metas.len(),
{
    if metas.len() == 0 {
        None
    } else if metas.last().path == Some("name"@) && metas.last().value is Some {
        metas.last().value
    } else {
        name_override(metas.drop_last())
    }
}

/// The parameters of a function that the arguments of a call give: those that
/// are plain names, but for `self`.
pub open spec fn call_params(params: Seq<Option<(Seq<char>, Seq<char>)>>) -> Seq<
    (Seq<char>, Seq<char>),
>
    decreases params.len(),
{
    if params.len() == 0 {
        Seq::empty()
    } else {
        let before = call_params(params.drop_last());
        match params.last() {
            Some(p) => if p.0 == "self"@ {
                before
            } else {
                before.push(p)
            },
            None => before,
        }
    }
}

/// A tool as its source declares it.
#[derive(Debug)]
pub struct ToolDecl {
    /// The name of the type that stands for the tool.
    pub struct_name: String,
    /// The name of the tool.
    pub name: String,
    /// What it is for.
    pub description: String,
    /// The name and the type of each parameter, all of which are required.
    pub params: Vec<(String, String)>,
}

/// What a declaration says.
#[verifier::ext_equal]
pub struct ToolDeclView {
    pub struct_name: Seq<char>,
    pub name: Seq<char>,
    pub description: Seq<char>,
    pub params: Seq<(Seq<char>, Seq<char>)>,
}

/// What a list of named texts says.
pub open spec fn pairs_view(v: Seq<(String, String)>) -> Seq<(Seq<char>, Seq<char>)> {
    v.map_values(|p: (String, String)| (p.0@, p.1@))
}

impl View for ToolDecl {
    type V = ToolDeclView;

    open spec fn view(&self) -> ToolDeclView {
        ToolDeclView {
            struct_name: self.struct_name@,
            name: self.name@,
            description: self.description@,
            params: pairs_view(self.params@),
        }
    }
}

/// The declaration that a function with its attributes makes, given the
/// arguments of the attribute that marks it as a tool.
pub open spec fn declared(
    metas: Seq<MetaSyntaxView>,
    attrs: Seq<MetaSyntaxView>,
    name: Seq<char>,
    params: Seq<Option<(Seq<char>, Seq<char>)>>,
) -> ToolDeclView {
    ToolDeclView {
        struct_name: pascal_case(name) + "Tool"@,
        name: match name_override(metas) {
            Some(n) => n,
            None => name,
        },
        description: text::join(doc_lines(attrs), "\n"@),
        params: call_params(params),
    }
}

/// The declaration that a function with its attributes makes.
pub fn declare_tool(
    metas: &[MetaSyntax],
    attrs: &[MetaSyntax],
    name: &str,
    params: &[Option<(String, String)>],
) -> (r: ToolDecl)
    ensures
        r@ == declared(
            metas_syntax_view(metas@),
            metas_syntax_view(attrs@),
            name@,
            params_view(params@),
        ),
{
    let ghost mv = metas_syntax_view(metas@);
    let mut tool_name = copy_str(name);
    let mut i: usize = metas.len();
    let mut found = false;
    assert(mv.take(i as int) =~= mv);
    while i > 0 && !found
        invariant
            i <= metas@.len(),
            mv == metas_syntax_view(metas@),
            !found ==> tool_name@ == name@ && name_override(mv) == name_override(
                mv.take(i as int),
            ),
            found ==> name_override(mv) == Some(tool_name@),
        decreases i,
    {
        proof {
            assert(mv.take(i as int).drop_last() =~= mv.take(i - 1));
            assert(mv.take(i as int).last() == metas@[i - 1]@);
        }
        i -= 1;
        if is_named(&metas[i], "name") {
            if let Some(v) = &metas[i].value {
                tool_name = copy_str(v);
                found = true;
            }
        }
    }
    assert(!found ==> mv.take(0).len() == 0);

    let mut struct_name = to_pascal_case(name);
    struct_name.append("Tool");

    let ghost pv = params_view(params@);
    let mut list: Vec<(String, String)> = Vec::new();
    let mut k: usize = 0;
    assert(pairs_view(list@) =~= call_params(pv.take(0)));
    while k < params.len()
        invariant
            k <= params@.len(),
            pv == params_view(params@),
            pairs_view(list@) == call_params(pv.take(k as int)),
        decreases params@.len() - k,
    {
        proof {
            assert(pv.take(k + 1).drop_last() =~= pv.take(k as int));
            assert(pv.take(k + 1).last() == param_view(params@[k as int]));
        }
        if let Some((n, t)) = &params[k] {
            if !str_eq(n, "self") {
                let ghost before = list@;
                list.push((copy_str(n), copy_str(t)));
                assert(pairs_view(list@) =~= pairs_view(before).push((n@, t@)));
            }
        }
        k += 1;
    }
    assert(pv.take(params@.len() as int) =~= pv);

    ToolDecl {
        struct_name,
        name: tool_name,
        description: extract_description(attrs),
        params: list,
    }
}

/// What some attributes say, given their texts. A text that is none says
/// nothing.
pub open spec fn attrs_syntax(attrs: Seq<Seq<char>>) -> Seq<MetaSyntaxView>
    decreases attrs.len(),
{
    if attrs.len() == 0 {
        Seq::empty()
    } else {
        attrs_syntax(attrs.drop_last()) + match parsed_metas(attrs.last()) {
            Some(m) => m,
            None => Seq::empty(),
        }
    }
}

/// The declaration that a function makes, given the arguments of the attribute
/// that marks it as a tool.
pub open spec fn declared_as(attr: Seq<char>, f: FnSyntaxView) -> ToolDeclView {
    declared(
        match parsed_metas(attr) {
            Some(m) => m,
            None => Seq::empty(),
        },
        attrs_syntax(f.attrs),
        f.name,
        f.params,
    )
}

/// The declaration that a source makes, given the arguments of the attribute
/// that marks it as a tool; or why the source is no function.
pub open spec fn declared_by(attr: Seq<char>, item: Seq<char>) -> Result<ToolDeclView, Seq<char>> {
    match parsed_fn(item) {
        Err(e) => Err(e),
        Ok(f) => Ok(declared_as(attr, f)),
    }
}

/// The declaration that a function makes, given the arguments of the attribute
/// that marks it as a tool. Arguments that cannot be read are left out of
/// account.
fn declare(attr: &str, f: &FnSyntax) -> (r: ToolDecl)
    ensures
        r@ == declared_as(attr@, f@),
{
    let metas: Vec<MetaSyntax> = match parse_metas(attr) {
        Some(m) => m,
        None => {
            let none: Vec<MetaSyntax> = Vec::new();
            assert(metas_syntax_view(none@) =~= Seq::empty());
            none
        },
    };
    let ghost av = text::views(f.attrs@);
    let mut attrs: Vec<MetaSyntax> = Vec::new();
    let mut i: usize = 0;
    assert(metas_syntax_view(attrs@) =~= attrs_syntax(av.take(0)));
    while i < f.attrs.len()
        invariant
            i <= f.attrs@.len(),
            av == text::views(f.attrs@),
            metas_syntax_view(attrs@) == attrs_syntax(av.take(i as int)),
        decreases f.attrs@.len() - i,
    {
        let ghost before = attrs@;
        proof {
            assert(av.take(i + 1).drop_last() =~= av.take(i as int));
            assert(av.take(i + 1).last() == f.attrs@[i as int]@);
        }
        if let Some(m) = parse_metas(&f.attrs[i]) {
            let mut m = m;
            let ghost mv = m@;
            attrs.append(&mut m);
            assert(metas_syntax_view(attrs@) =~= metas_syntax_view(before) + metas_syntax_view(mv));
        } else {
            assert(metas_syntax_view(before) + Seq::<MetaSyntaxView>::empty()
                =~= metas_syntax_view(before));
        }
        i += 1;
    }
    assert(av.take(f.attrs@.len() as int) =~= av);
    declare_tool(&metas, &attrs, &f.name, &f.params)
}

/// The tool that the source of a function declares, given the arguments of the
/// attribute that marks it as one: its name is that of the function unless they
/// give another, its description is the documentation of the function, and the
/// parameters of the function are its parameters.
pub fn cogent_tool(attr: &str, item: &str) -> (r: Result<ToolDecl, String>)
    ensures
        match r {
            Ok(d) => declared_by(attr@, item@) == Ok::<ToolDeclView, Seq<char>>(d@),
            Err(e) => declared_by(attr@, item@) == Err::<ToolDeclView, Seq<char>>(e@),
        },
{
    match parse_fn(item) {
        Ok(f) => Ok(declare(attr, &f)),
        Err(e) => Err(e),
    }
}

// ---------------------------------------------------------------------------
// Expansion
// ---------------------------------------------------------------------------

/// A character inside of a string literal.
pub open spec fn literal_char(c: char) -> Seq<char> {
    if c == '"' {
        "\\\""@
    } else if c == '\\' {
        "\\\\"@
    } else if c == '\n' {
        "\\n"@
    } else if c == '\r' {
        "\\r"@
    } else {
        seq![c]
    }
}

/// The characters of a text inside of a string literal.
pub open spec fn literal_chars(s: Seq<char>) -> Seq<char>
    decreases s.len(),
{
    if s.len() == 0 {
        Seq::empty()
    } else {
        literal_chars(s.drop_last()) + literal_char(s.last())
    }
}

/// A text as a string literal of Rust.
pub open spec fn literal(s: Seq<char>) -> Seq<char> {
    "\""@ + literal_chars(s) + "\""@
}

/// A text as a string literal of Rust.
fn string_literal(s: &str) -> (r: String)
    ensures
        r@ == literal(s@),
{
    let v = to_chars(s);
    let mut r = copy_str("\"");
    let ghost open = r@;
    let mut i: usize = 0;
    assert(open + literal_chars(s@.take(0)) =~= open);
    while i < v.len()
        invariant
            i <= v@.len(),
            v@ == s@,
            r@ == open + literal_chars(s@.take(i as int)),
        decreases v@.len() - i,
    {
        let ghost before = r@;
        let c = v[i];
        proof {
            assert(s@.take(i + 1).drop_last() =~= s@.take(i as int));
            assert(s@.take(i + 1).last() == c);
        }
        if c == '"' {
            r.append("\\\"");
        } else if c == '\\' {
            r.append("\\\\");
        } else if c == '\n' {
            r.append("\\n");
        } else if c == '\r' {
            r.append("\\r");
        } else {
            r.push(c);
            assert(r@ =~= before + seq![c]);
        }
        assert(r@ =~= open + literal_chars(s@.take(i + 1)));
        i += 1;
    }
    assert(s@.take(i as int) =~= s@);
    r.append("\"");
    r
}

/// The statement that puts the schema of a parameter among the properties.
pub open spec fn property_statement(p: (Seq<char>, Seq<char>)) -> Seq<char> {
    "props.insert("@ + literal(p.0)
        + ".to_string(), serde_json::to_value(schemars::schema_for!("@ + p.1 + ")).unwrap());\n"@
}

/// The statement that reads a parameter from the arguments of a call.
pub open spec fn reading_statement(tool: Seq<char>, p: (Seq<char>, Seq<char>)) -> Seq<char> {
    "let "@ + p.0 + ": "@ + p.1 + " = serde_json::from_value(args.get("@ + literal(p.0)
        + ").cloned().unwrap_or(serde_json::Value::Null)).map_err(|e| anyhow::anyhow!(\"tool '{}': failed to deserialize parameter '{}': {}\", "@
        + literal(tool) + ", "@ + literal(p.0) + ", e))?;\n"@
}

/// The element of the list of required parameters.
pub open spec fn required_element(p: (Seq<char>, Seq<char>)) -> Seq<char> {
    literal(p.0) + ".to_string()"@
}

/// The source that takes the place of a function that declares a tool: a type
/// without fields that implements the trait of tools at a path. Its method
/// `execute` reads the parameters in their order and then does what the function
/// did; the function itself is gone.
pub open spec fn expansion(d: ToolDeclView, tool_trait: Seq<char>, body: Seq<char>) -> Seq<char> {
    "pub struct "@ + d.struct_name + ";\n\n#[async_trait::async_trait]\nimpl "@ + tool_trait
        + " for "@ + d.struct_name + " {\nfn name(&self) -> &str {\n"@ + literal(d.name)
        + "\n}\n\nfn description(&self) -> &str {\n"@ + literal(d.description)
        + "\n}\n\nfn parameters_schema(&self) -> serde_json::Value {\nlet mut props = serde_json::Map::new();\n"@
        + text::join(d.params.map_values(|p: (Seq<char>, Seq<char>)| property_statement(p)), ""@)
        + "serde_json::json!({\"type\": \"object\", \"properties\": props, \"required\": ["@
        + text::join(d.params.map_values(|p: (Seq<char>, Seq<char>)| required_element(p)), ", "@)
        + "]})\n}\n\nasync fn execute(&self, args: serde_json::Value) -> anyhow::Result<String> {\n"@
        + text::join(
        d.params.map_values(|p: (Seq<char>, Seq<char>)| reading_statement(d.name, p)),
        ""@,
    ) + body + "\n}\n}\n"@
}

/// The statement that puts the schema of a parameter among the properties.
fn property_source(name: &str, ty: &str) -> (r: String)
    ensures
        r@ == property_statement((name@, ty@)),
{
    let mut s = copy_str("props.insert(");
    let n = string_literal(name);
    s.append(&n);
    s.append(".to_string(), serde_json::to_value(schemars::schema_for!(");
    s.append(ty);
    s.append(")).unwrap());\n");
    s
}

/// The statement that reads a parameter from the arguments of a call.
fn reading_source(tool: &str, name: &str, ty: &str) -> (r: String)
    ensures
        r@ == reading_statement(tool@, (name@, ty@)),
{
    let n = string_literal(name);
    let t = string_literal(tool);
    let mut s = copy_str("let ");
    s.append(name);
    s.append(": ");
    s.append(ty);
    s.append(" = serde_json::from_value(args.get(");
    s.append(&n);
    s.append(
        ").cloned().unwrap_or(serde_json::Value::Null)).map_err(|e| anyhow::anyhow!(\"tool '{}': failed to deserialize parameter '{}': {}\", ",
    );
    s.append(&t);
    s.append(", ");
    s.append(&n);
    s.append(", e))?;\n");
    s
}

impl ToolDecl {
    /// The source of the type that stands for the tool, which implements the
    /// trait of tools at a path and does what a body does.
    pub fn source(&self, tool_trait: &str, body: &str) -> (r: String)
        ensures
            r@ == expansion(self@, tool_trait@, body@),
    {
        let mut properties: Vec<String> = Vec::new();
        let mut required: Vec<String> = Vec::new();
        let mut readings: Vec<String> = Vec::new();
        let mut i: usize = 0;
        while i < self.params.len()
            invariant
                i <= self.params@.len(),
                properties@.len() == i,
                required@.len() == i,
                readings@.len() == i,
                forall|k: int|
                    0 <= k < i ==> (#[trigger] properties@[k])@ == property_statement(
                        (self.params@[k].0@, self.params@[k].1@),
                    ),
                forall|k: int|
                    0 <= k < i ==> (#[trigger] required@[k])@ == required_element(
                        (self.params@[k].0@, self.params@[k].1@),
                    ),
                forall|k: int|
                    0 <= k < i ==> (#[trigger] readings@[k])@ == reading_statement(
                        self.name@,
                        (self.params@[k].0@, self.params@[k].1@),
                    ),
            decreases self.params@.len() - i,
        {
            let name = &self.params[i].0;
            let ty = &self.params[i].1;
            properties.push(property_source(name, ty));
            let mut element = string_literal(name);
            element.append(".to_string()");
            required.push(element);
            readings.push(reading_source(&self.name, name, ty));
            i += 1;
        }
        let ghost pv = self@.params;
        assert(text::views(properties@) =~= pv.map_values(
            |p: (Seq<char>, Seq<char>)| property_statement(p),
        ));
        assert(text::views(required@) =~= pv.map_values(
            |p: (Seq<char>, Seq<char>)| required_element(p),
        ));
        assert(text::views(readings@) =~= pv.map_values(
            |p: (Seq<char>, Seq<char>)| reading_statement(self.name@, p),
        ));
        let mut s = copy_str("pub struct ");
        s.append(&self.struct_name);
        s.append(";\n\n#[async_trait::async_trait]\nimpl ");
        s.append(tool_trait);
        s.append(" for ");
        s.append(&self.struct_name);
        s.append(" {\nfn name(&self) -> &str {\n");
        let name = string_literal(&self.name);
        s.append(&name);
        s.append("\n}\n\nfn description(&self) -> &str {\n");
        let description = string_literal(&self.description);
        s.append(&description);
        s.append(
            "\n}\n\nfn parameters_schema(&self) -> serde_json::Value {\nlet mut props = serde_json::Map::new();\n",
        );
        let inserts = join_strings(&properties, "");
        s.append(&inserts);
        s.append(
            "serde_json::json!({\"type\": \"object\", \"properties\": props, \"required\": [",
        );
        let names = join_strings(&required, ", ");
        s.append(&names);
        s.append(
            "]})\n}\n\nasync fn execute(&self, args: serde_json::Value) -> anyhow::Result<String> {\n",
        );
        let reads = join_strings(&readings, "");
        s.append(&reads);
        s.append(body);
        s.append("\n}\n}\n");
        s
    }
}

/// The source that takes the place of a function that declares a tool, given the
/// arguments of the attribute that marks it as one and the path of the trait of
/// tools; or why the source is no function.
pub fn expand_tool(attr: &str, item: &str, tool_trait: &str) -> (r: Result<String, String>)
    ensures
        match r {
            Ok(s) => parsed_fn(item@) matches Ok(f) && s@ == expansion(
                declared_as(attr@, f),
                tool_trait@,
                f.body,
            ),
            Err(e) => parsed_fn(item@) == Err::<FnSyntaxView, Seq<char>>(e@),
        },
{
    match parse_fn(item) {
        Ok(f) => {
            let d = declare(attr, &f);
            Ok(d.source(tool_trait, &f.body))
        },
        Err(e) => Err(e),
    }
}

// ---------------------------------------------------------------------------
// Parameters
// ---------------------------------------------------------------------------

/// Whether a text comes before another in the order of their characters.
pub open spec fn before(a: Seq<char>, b: Seq<char>) -> bool
    decreases a.len(),
{
    if b.len() == 0 {
        false
    } else if a.len() == 0 {
        true
    } else if a[0] == b[0] {
        before(a.skip(1), b.skip(1))
    } else {
        a[0] < b[0]
    }
}

/// Whether a text comes before another in the order of their characters.
fn comes_before(a: &str, b: &str) -> (r: bool)
    ensures
        r == before(a@, b@),
{
    let x = to_chars(a);
    let y = to_chars(b);
    let mut i: usize = 0;
    assert(a@.skip(0) =~= a@);
    assert(b@.skip(0) =~= b@);
    while i < x.len() && i < y.len() && x[i] == y[i]
        invariant
            i <= x@.len(),
            i <= y@.len(),
            x@ == a@,
            y@ == b@,
            before(a@, b@) == before(a@.skip(i as int), b@.skip(i as int)),
        decreases x@.len() - i,
    {
        assert(a@.skip(i as int).skip(1) =~= a@.skip(i + 1));
        assert(b@.skip(i as int).skip(1) =~= b@.skip(i + 1));
        assert(a@.skip(i as int)[0] == x@[i as int]);
        assert(b@.skip(i as int)[0] == y@[i as int]);
        i += 1;
    }
    if i >= y.len() {
        false
    } else if i >= x.len() {
        true
    } else {
        assert(a@.skip(i as int)[0] == x@[i as int]);
        assert(b@.skip(i as int)[0] == y@[i as int]);
        x[i] < y[i]
    }
}

/// Entries of an object in the order of their keys, with one more; an entry
/// with the same key is replaced.
pub open spec fn inserted(
    props: Seq<(Seq<char>, Seq<char>)>,
    key: Seq<char>,
    value: Seq<char>,
) -> Seq<(Seq<char>, Seq<char>)>
    decreases props.len(),
{
    if props.len() == 0 {
        seq![(key, value)]
    } else if props[0].0 == key {
        seq![(key, value)] + props.skip(1)
    } else if before(key, props[0].0) {
        seq![(key, value)] + props
    } else {
        seq![props[0]] + inserted(props.skip(1), key, value)
    }
}

/// The properties of an object in the order of their names: the name and the
/// schema of each parameter. The last of some parameters with one name counts.
pub open spec fn props_of(
    params: Seq<(Seq<char>, Seq<char>)>,
    schemas: Seq<Seq<char>>,
) -> Seq<(Seq<char>, Seq<char>)>
    decreases params.len(),
{
    if params.len() == 0 {
        Seq::empty()
    } else {
        inserted(
            props_of(params.drop_last(), schemas.drop_last()),
            params.last().0,
            schemas.last(),
        )
    }
}

/// An entry of a JSON object.
pub open spec fn entry_json(p: (Seq<char>, Seq<char>)) -> Seq<char> {
    json::json_string(p.0) + ":"@ + p.1
}

/// The schema of the parameters of a tool: an object whose properties are the
/// parameters, all of which are required.
pub open spec fn object_schema(
    props: Seq<(Seq<char>, Seq<char>)>,
    required: Seq<Seq<char>>,
) -> Seq<char> {
    "{\"properties\":{"@ + text::join(
        props.map_values(|p: (Seq<char>, Seq<char>)| entry_json(p)),
        ","@,
    ) + "},\"required\":"@ + json::json_array(
        required.map_values(|n: Seq<char>| json::json_string(n)),
    ) + ",\"type\":\"object\"}"@
}

/// Puts an entry into a list that is in the order of its keys.
fn insert_entry(props: Vec<(String, String)>, key: &str, value: String) -> (r: Vec<
    (String, String),
>)
    ensures
        pairs_view(r@) == inserted(pairs_view(props@), key@, value@),
{
    let ghost pv = pairs_view(props@);
    let mut r: Vec<(String, String)> = Vec::new();
    let mut i: usize = 0;
    assert(pairs_view(r@) =~= Seq::empty());
    assert(pv.skip(0) =~= pv);
    assert(pairs_view(r@) + inserted(pv.skip(0), key@, value@) =~= inserted(pv, key@, value@));
    while i < props.len() && !str_eq(&props[i].0, key) && !comes_before(key, &props[i].0)
        invariant
            i <= props@.len(),
            pv == pairs_view(props@),
            inserted(pv, key@, value@) == pairs_view(r@) + inserted(
                pv.skip(i as int),
                key@,
                value@,
            ),
        decreases props@.len() - i,
    {
        let ghost old_r = pairs_view(r@);
        r.push((copy_str(&props[i].0), copy_str(&props[i].1)));
        proof {
            assert(pv[i as int] == (props@[i as int].0@, props@[i as int].1@));
            assert(pv.skip(i as int)[0] == pv[i as int]);
            assert(pv.skip(i as int).skip(1) =~= pv.skip(i + 1));
            assert(pairs_view(r@) =~= old_r.push(pv[i as int]));
            let rest = inserted(pv.skip(i + 1), key@, value@);
            assert(old_r + (seq![pv[i as int]] + rest) =~= old_r.push(pv[i as int]) + rest);
        }
        i += 1;
    }
    let ghost head = pairs_view(r@);
    let ghost vv = value@;
    let replaces = i < props.len() && str_eq(&props[i].0, key);
    if i < props.len() {
        assert(pv[i as int] == (props@[i as int].0@, props@[i as int].1@));
        assert(pv.skip(i as int)[0] == pv[i as int]);
        assert(pv.skip(i as int).skip(1) =~= pv.skip(i + 1));
    }
    r.push((copy_str(key), value));
    assert(pairs_view(r@) =~= head.push((key@, vv)));
    let mut k: usize = if replaces {
        i + 1
    } else {
        i
    };
    let ghost from = k as int;
    assert(inserted(pv, key@, vv) =~= head.push((key@, vv)) + pv.skip(from));
    assert(pv.skip(from).take(0) =~= Seq::empty());
    assert(head.push((key@, vv)) + pv.skip(from).take(0) =~= head.push((key@, vv)));
    while k < props.len()
        invariant
            from <= k <= props@.len(),
            0 <= from,
            pv == pairs_view(props@),
            pairs_view(r@) == head.push((key@, vv)) + pv.skip(from).take(k - from),
        decreases props@.len() - k,
    {
        let ghost old_r = pairs_view(r@);
        r.push((copy_str(&props[k].0), copy_str(&props[k].1)));
        proof {
            assert(pv[k as int] == (props@[k as int].0@, props@[k as int].1@));
            assert(pairs_view(r@) =~= old_r.push(pv[k as int]));
            assert(pv.skip(from).take(k - from + 1) =~= pv.skip(from).take(k - from).push(
                pv[k as int],
            ));
            assert(head.push((key@, vv)) + pv.skip(from).take(k - from + 1) =~= (head.push(
                (key@, vv),
            ) + pv.skip(from).take(k - from)).push(pv[k as int]));
        }
        k += 1;
    }
    assert(pv.skip(from).take(k - from) =~= pv.skip(from));
    r
}

/// The names of some parameters.
pub open spec fn names_of(params: Seq<(Seq<char>, Seq<char>)>) -> Seq<Seq<char>> {
    params.map_values(|p: (Seq<char>, Seq<char>)| p.0)
}

/// The message that a parameter could not be read.
pub open spec fn decode_error(tool: Seq<char>, param: Seq<char>, e: Seq<char>) -> Seq<char> {
    "tool '"@ + tool + "': failed to deserialize parameter '"@ + param + "': "@ + e
}

/// The message that a parameter could not be read.
fn decode_message(tool: &str, param: &str, e: &str) -> (r: String)
    ensures
        r@ == decode_error(tool@, param@, e@),
{
    let mut m = copy_str("tool '");
    m.append(tool);
    m.append("': failed to deserialize parameter '");
    m.append(param);
    m.append("': ");
    m.append(e);
    m
}

/// What the readings of some arguments say: the value of each, or why it could
/// not be read.
pub open spec fn readings_view<T: View>(v: Seq<Result<T, String>>) -> Seq<
    Result<T::V, Seq<char>>,
> {
    v.map_values(
        |r: Result<T, String>|
            match r {
                Ok(x) => Ok::<T::V, Seq<char>>(x@),
                Err(e) => Err::<T::V, Seq<char>>(e@),
            },
    )
}

/// What a list of values says.
pub open spec fn values_view<T: View>(v: Seq<T>) -> Seq<T::V> {
    v.map_values(|x: T| x@)
}

/// The parameters of a call to a tool, in their order, given what was read of
/// each argument; or why the first that could not be read could not be read.
pub open spec fn decoded<V>(
    tool: Seq<char>,
    params: Seq<(Seq<char>, Seq<char>)>,
    found: Seq<Result<V, Seq<char>>>,
) -> Result<Seq<V>, Seq<char>>
    decreases params.len(),
{
    if params.len() == 0 {
        Ok(Seq::empty())
    } else {
        match decoded(tool, params.drop_last(), found.drop_last()) {
            Err(e) => Err(e),
            Ok(v) => match found.last() {
                Ok(x) => Ok(v.push(x)),
                Err(e) => Err(decode_error(tool, params.last().0, e)),
            },
        }
    }
}

/// A parameter that cannot be read ends the reading.
proof fn lemma_decoding_stops<V>(
    tool: Seq<char>,
    params: Seq<(Seq<char>, Seq<char>)>,
    found: Seq<Result<V, Seq<char>>>,
    n: int,
)
    requires
        0 <= n <= params.len(),
        params.len() == found.len(),
        decoded(tool, params.take(n), found.take(n)) is Err,
    ensures
        decoded(tool, params, found) == decoded(tool, params.take(n), found.take(n)),
    decreases params.len(),
{
    if n < params.len() {
        assert(params.drop_last().take(n) =~= params.take(n));
        assert(found.drop_last().take(n) =~= found.take(n));
        lemma_decoding_stops(tool, params.drop_last(), found.drop_last(), n);
    } else {
        assert(params.take(n) =~= params);
        assert(found.take(n) =~= found);
    }
}

impl ToolDecl {
    /// The schema of the parameters as JSON, given the schema of the type of
    /// each.
    pub fn parameters_schema(&self, schemas: &[String]) -> (r: String)
        requires
            schemas@.len() == self@.params.len(),
        ensures
            r@ == object_schema(
                props_of(self@.params, text::views(schemas@)),
                names_of(self@.params),
            ),
    {
        let ghost pv = pairs_view(self.params@);
        let ghost sv = text::views(schemas@);
        let mut props: Vec<(String, String)> = Vec::new();
        let mut required: Vec<String> = Vec::new();
        let mut i: usize = 0;
        assert(pairs_view(props@) =~= Seq::empty());
        assert(pv.take(0) =~= Seq::empty());
        while i < self.params.len()
            invariant
                i <= self.params@.len() == schemas@.len(),
                pv == pairs_view(self.params@),
                sv == text::views(schemas@),
                props_of(pv.take(i as int), sv.take(i as int)) == pairs_view(props@),
                required@.len() == i,
                forall|k: int|
                    0 <= k < i ==> (#[trigger] required@[k])@ == json::json_string(
                        self.params@[k].0@,
                    ),
            decreases self.params@.len() - i,
        {
            proof {
                assert(pv.take(i + 1).drop_last() =~= pv.take(i as int));
                assert(pv.take(i + 1).last() == (self.params@[i as int].0@, self.params@[i as int].1@));
                assert(sv.take(i + 1).drop_last() =~= sv.take(i as int));
                assert(sv.take(i + 1).last() == schemas@[i as int]@);
            }
            props = insert_entry(props, &self.params[i].0, copy_str(&schemas[i]));
            required.push(json_quote(&self.params[i].0));
            i += 1;
        }
        assert(pv.take(i as int) =~= pv);
        assert(sv.take(i as int) =~= sv);
        let mut entries: Vec<String> = Vec::new();
        let mut k: usize = 0;
        while k < props.len()
            invariant
                k <= props@.len(),
                entries@.len() == k,
                forall|j: int|
                    0 <= j < k ==> (#[trigger] entries@[j])@ == entry_json(
                        (props@[j].0@, props@[j].1@),
                    ),
            decreases props@.len() - k,
        {
            let mut e = json_quote(&props[k].0);
            e.append(":");
            e.append(&props[k].1);
            entries.push(e);
            k += 1;
        }
        assert(text::views(entries@) =~= pairs_view(props@).map_values(
            |p: (Seq<char>, Seq<char>)| entry_json(p),
        ));
        assert(text::views(required@) =~= names_of(pv).map_values(
            |n: Seq<char>| json::json_string(n),
        ));
        let mut s = copy_str("{\"properties\":{");
        let inner = join_strings(&entries, ",");
        s.append(&inner);
        s.append("},\"required\":");
        let names = array_of(&required);
        s.append(&names);
        s.append(",\"type\":\"object\"}");
        s
    }

    /// What the model gets to know of the tool, given the schema of the type of
    /// each parameter.
    pub fn definition(&self, schemas: &[String]) -> (r: ToolDef)
        requires
            schemas@.len() == self@.params.len(),
        ensures
            r@ == (ToolDefView {
                name: self@.name,
                description: self@.description,
                parameters: object_schema(
                    props_of(self@.params, text::views(schemas@)),
                    names_of(self@.params),
                ),
            }),
    {
        ToolDef {
            name: copy_str(&self.name),
            description: copy_str(&self.description),
            parameters: self.parameters_schema(schemas),
        }
    }

    /// The parameters of a call in their order, given what was read of each
    /// argument; or why the first that could not be read could not be read.
    pub fn decode<T: View>(&self, found: Vec<Result<T, String>>) -> (r: Result<Vec<T>, String>)
        requires
            found@.len() == self@.params.len(),
        ensures
            match r {
                Ok(v) => decoded(self@.name, self@.params, readings_view(found@)) == Ok::<
                    Seq<T::V>,
                    Seq<char>,
                >(values_view(v@)),
                Err(m) => decoded(self@.name, self@.params, readings_view(found@)) == Err::<
                    Seq<T::V>,
                    Seq<char>,
                >(m@),
            },
    {
        let ghost pv = pairs_view(self.params@);
        let ghost given = found@;
        let ghost fv = readings_view(found@);
        let mut values: Vec<T> = Vec::new();
        let count: usize = self.params.len();
        let mut i: usize = 0;
        assert(values_view(values@) =~= Seq::empty());
        assert(pv.take(0) =~= Seq::empty());
        for reading in it: found
            invariant
                given == it.seq(),
                i == it.index(),
                i <= count == self.params@.len() == given.len(),
                pv == pairs_view(self.params@),
                pv == self@.params,
                fv == readings_view(given),
                decoded(self.name@, pv.take(i as int), fv.take(i as int)) == Ok::<
                    Seq<T::V>,
                    Seq<char>,
                >(values_view(values@)),
        {
            let ghost before = values@;
            proof {
                assert(pv.take(i + 1).drop_last() =~= pv.take(i as int));
                assert(pv.take(i + 1).last() == (
                    self.params@[i as int].0@,
                    self.params@[i as int].1@,
                ));
                assert(fv.take(i + 1).drop_last() =~= fv.take(i as int));
                assert(fv.take(i + 1).last() == fv[i as int]);
                assert(reading == given[i as int]);
            }
            match reading {
                Ok(v) => {
                    values.push(v);
                    assert(values_view(values@) =~= values_view(before).push(v@));
                },
                Err(e) => {
                    proof {
                        lemma_decoding_stops(self.name@, pv, fv, i + 1);
                    }
                    return Err(decode_message(&self.name, &self.params[i].0, &e));
                },
            }
            i += 1;
        }
        assert(pv.take(i as int) =~= pv);
        assert(fv.take(i as int) =~= fv);
        Ok(values)
    }
}

/// An inserted entry is there, and so is each of the others; no entry comes
/// from elsewhere.
proof fn lemma_inserted(
    props: Seq<(Seq<char>, Seq<char>)>,
    key: Seq<char>,
    value: Seq<char>,
    k: Seq<char>,
)
    ensures
        has_key(inserted(props, key, value), k) <==> k == key || has_key(props, k),
    decreases props.len(),
{
    let all = inserted(props, key, value);
    if props.len() == 0 {
        assert(all[0].0 == key);
    } else if props[0].0 == key || before(key, props[0].0) {
        let skip = if props[0].0 == key {
            1int
        } else {
            0int
        };
        assert(all[0].0 == key);
        if has_key(props, k) {
            let i = choose|i: int| 0 <= i < props.len() && (#[trigger] props[i]).0 == k;
            if i >= skip {
                assert(all[i + 1 - skip] == props[i]);
            }
        }
        if has_key(all, k) {
            let i = choose|i: int| 0 <= i < all.len() && (#[trigger] all[i]).0 == k;
            if i > 0 {
                assert(all[i] == props[i - 1 + skip]);
            }
        }
    } else {
        let rest = props.skip(1);
        lemma_inserted(rest, key, value, k);
        let tail = inserted(rest, key, value);
        assert(all[0] == props[0]);
        if has_key(tail, k) {
            let i = choose|i: int| 0 <= i < tail.len() && (#[trigger] tail[i]).0 == k;
            assert(all[i + 1] == tail[i]);
        }
        if has_key(rest, k) {
            let i = choose|i: int| 0 <= i < rest.len() && (#[trigger] rest[i]).0 == k;
            assert(props[i + 1] == rest[i]);
        }
        if has_key(props, k) {
            let i = choose|i: int| 0 <= i < props.len() && (#[trigger] props[i]).0 == k;
            if i > 0 {
                assert(rest[i - 1] == props[i]);
            }
        }
        if has_key(all, k) {
            let i = choose|i: int| 0 <= i < all.len() && (#[trigger] all[i]).0 == k;
            if i > 0 {
                assert(tail[i - 1] == all[i]);
            }
        }
    }
}

/// Whether a list has an entry with a key.
pub open spec fn has_key(props: Seq<(Seq<char>, Seq<char>)>, k: Seq<char>) -> bool {
    exists|i: int| 0 <= i < props.len() && (#[trigger] props[i]).0 == k
}

/// Every parameter of a tool is described, and required, and nothing else is.
pub proof fn law_required_parameters_are_described(
    params: Seq<(Seq<char>, Seq<char>)>,
    schemas: Seq<Seq<char>>,
    name: Seq<char>,
)
    requires
        schemas.len() == params.len(),
    ensures
        has_key(props_of(params, schemas), name) <==> names_of(params).contains(name),
    decreases params.len(),
{
    if params.len() > 0 {
        let front = params.drop_last();
        law_required_parameters_are_described(front, schemas.drop_last(), name);
        lemma_inserted(
            props_of(front, schemas.drop_last()),
            params.last().0,
            schemas.last(),
            name,
        );
        assert(names_of(params) =~= names_of(front).push(params.last().0));
        let names = names_of(front);
        if names.contains(name) {
            let i = choose|i: int| 0 <= i < names.len() && names[i] == name;
            assert(names_of(params)[i] == name);
        }
        if params.last().0 == name {
            assert(names_of(params)[names.len() as int] == name);
        }
    }
}

// ---------------------------------------------------------------------------
// What a declaration keeps
// ---------------------------------------------------------------------------

/// Reading the arguments of a call keeps every one in its place; the first that
/// cannot be read ends it, and is told with the tool, the parameter and the cause.
pub proof fn law_arguments_keep_their_places<V>(
    tool: Seq<char>,
    params: Seq<(Seq<char>, Seq<char>)>,
    found: Seq<Result<V, Seq<char>>>,
)
    requires
        params.len() == found.len(),
    ensures
        match decoded(tool, params, found) {
            Ok(v) => {
                &&& v.len() == params.len()
                &&& forall|i: int|
                    0 <= i < found.len() ==> #[trigger] found[i] == Ok::<V, Seq<char>>(v[i])
            },
            Err(m) => exists|i: int|
                {
                    &&& 0 <= i < found.len()
                    &&& (#[trigger] found[i]) matches Err(e) && m == "tool '"@ + tool
                        + "': failed to deserialize parameter '"@ + params[i].0 + "': "@ + e
                    &&& forall|j: int| 0 <= j < i ==> (#[trigger] found[j]) is Ok
                },
        },
    decreases params.len(),
{
    if params.len() > 0 {
        let p = params.drop_last();
        let f = found.drop_last();
        law_arguments_keep_their_places(tool, p, f);
        assert forall|i: int| 0 <= i < f.len() implies f[i] == found[i] by {}
        match decoded(tool, p, f) {
            Ok(v) => {
                assert forall|j: int| 0 <= j < f.len() implies (#[trigger] found[j]) is Ok by {
                    assert(f[j] == Ok::<V, Seq<char>>(v[j]));
                }
                assert(found.last() == found[found.len() - 1]);
                assert(params.last() == params[found.len() - 1]);
                if let Ok(x) = found.last() {
                    assert forall|i: int| 0 <= i < found.len() implies #[trigger] found[i] == Ok::<
                        V,
                        Seq<char>,
                    >(v.push(x)[i]) by {
                        if i < f.len() {
                            assert(f[i] == Ok::<V, Seq<char>>(v[i]));
                        }
                    }
                }
            },
            Err(m) => {
                let i = choose|i: int|
                    {
                        &&& 0 <= i < f.len()
                        &&& (#[trigger] f[i]) matches Err(e) && m == "tool '"@ + tool
                            + "': failed to deserialize parameter '"@ + p[i].0 + "': "@ + e
                        &&& forall|j: int| 0 <= j < i ==> (#[trigger] f[j]) is Ok
                    };
                assert(found[i] == f[i]);
                assert(params[i] == p[i]);
                assert forall|j: int| 0 <= j < i implies (#[trigger] found[j]) is Ok by {
                    assert(f[j] == found[j]);
                }
            },
        }
    }
}

/// The parameters of a function are taken one after the other: each that is a
/// plain name other than `self` is a parameter of the tool, with its type.
pub proof fn law_parameters_are_taken_in_order(
    params: Seq<Option<(Seq<char>, Seq<char>)>>,
    p: Option<(Seq<char>, Seq<char>)>,
)
    ensures
        p matches Some(x) ==> call_params(params.push(p)) == (if x.0 == "self"@ {
            call_params(params)
        } else {
            call_params(params).push(x)
        }),
        p is None ==> call_params(params.push(p)) == call_params(params),
        params.len() == 0 ==> call_params(params).len() == 0,
{
    assert(params.push(p).drop_last() =~= params);
}

/// The description of a tool is every line of its documentation, in order, each
/// without the whitespace at its beginning.
pub proof fn law_documentation_is_taken_in_order(
    attrs: Seq<MetaSyntaxView>,
    line: Seq<char>,
    other: MetaSyntaxView,
)
    ensures
        doc_lines(attrs.push(MetaSyntaxView { path: Some("doc"@), value: Some(line) }))
            == doc_lines(attrs).push(text::trim_start(line)),
        other.path != Some("doc"@) ==> doc_lines(attrs.push(other)) == doc_lines(attrs),
        attrs.len() == 0 ==> doc_lines(attrs).len() == 0,
{
    let d = MetaSyntaxView { path: Some("doc"@), value: Some(line) };
    assert(attrs.push(d).drop_last() =~= attrs);
    assert(attrs.push(other).drop_last() =~= attrs);
}

/// The name of a tool is the last one that its attribute gives, and that of its
/// function where it gives none.
pub proof fn law_names_are_given(
    metas: Seq<MetaSyntaxView>,
    attrs: Seq<MetaSyntaxView>,
    name: Seq<char>,
    params: Seq<Option<(Seq<char>, Seq<char>)>>,
    given: Seq<char>,
    i: int,
)
    ensures
        (0 <= i < metas.len() && metas[i] == (MetaSyntaxView {
            path: Some("name"@),
            value: Some(given),
        }) && forall|j: int| i < j < metas.len() ==> (#[trigger] metas[j]).path != Some("name"@))
            ==> declared(metas, attrs, name, params).name == given,
        (forall|j: int| 0 <= j < metas.len() ==> (#[trigger] metas[j]).path != Some("name"@))
            ==> declared(metas, attrs, name, params).name == name,
    decreases metas.len(),
{
    if metas.len() > 0 {
        let m = metas.drop_last();
        law_names_are_given(m, attrs, name, params, given, i);
        assert(metas.last() == metas[metas.len() - 1]);
        assert forall|j: int| 0 <= j < m.len() implies m[j] == metas[j] by {}
        if metas.last().path != Some("name"@) {
            assert(name_override(metas) == name_override(m));
        }
    }
}

/// What is said of a parameter is the schema of its type: of the last one, where
/// several have one name.
pub proof fn law_parameters_have_their_schemas(
    params: Seq<(Seq<char>, Seq<char>)>,
    schemas: Seq<Seq<char>>,
    i: int,
)
    requires
        schemas.len() == params.len(),
        0 <= i < params.len(),
        forall|j: int| i < j < params.len() ==> (#[trigger] params[j]).0 != params[i].0,
    ensures
        props_of(params, schemas).contains((params[i].0, schemas[i])),
    decreases params.len(),
{
    let p = params.drop_last();
    let s = schemas.drop_last();
    let before = props_of(p, s);
    let k = params.last().0;
    let v = schemas.last();
    if i == params.len() - 1 {
        lemma_inserted_there(before, k, v);
    } else {
        assert forall|j: int| i < j < p.len() implies (#[trigger] p[j]).0 != p[i].0 by {
            assert(p[j] == params[j]);
        }
        assert(p[i] == params[i]);
        assert(s[i] == schemas[i]);
        law_parameters_have_their_schemas(p, s, i);
        assert(params[params.len() - 1].0 != params[i].0);
        lemma_inserted_keeps(before, k, v, (params[i].0, schemas[i]));
    }
}

proof fn lemma_inserted_there(
    props: Seq<(Seq<char>, Seq<char>)>,
    key: Seq<char>,
    value: Seq<char>,
)
    ensures
        inserted(props, key, value).contains((key, value)),
    decreases props.len(),
{
    let all = inserted(props, key, value);
    if props.len() == 0 || props[0].0 == key || before(key, props[0].0) {
        assert(all[0] == (key, value));
    } else {
        lemma_inserted_there(props.skip(1), key, value);
        let rest = inserted(props.skip(1), key, value);
        let j = choose|j: int| 0 <= j < rest.len() && rest[j] == (key, value);
        assert(all[j + 1] == (key, value));
    }
}

proof fn lemma_inserted_keeps(
    props: Seq<(Seq<char>, Seq<char>)>,
    key: Seq<char>,
    value: Seq<char>,
    other: (Seq<char>, Seq<char>),
)
    requires
        props.contains(other),
        other.0 != key,
    ensures
        inserted(props, key, value).contains(other),
    decreases props.len(),
{
    let all = inserted(props, key, value);
    let j = choose|j: int| 0 <= j < props.len() && props[j] == other;
    if props[0].0 == key {
        assert(all[j] == other);
    } else if before(key, props[0].0) {
        assert(all[j + 1] == other);
    } else if j == 0 {
        assert(all[0] == other);
    } else {
        let t = props.skip(1);
        assert(t[j - 1] == other);
        lemma_inserted_keeps(t, key, value, other);
        let rest = inserted(t, key, value);
        let k = choose|k: int| 0 <= k < rest.len() && rest[k] == other;
        assert(all[k + 1] == other);
    }
}

/// The schema of a tool holds an entry for each property and the name of each
/// required parameter.
pub proof fn law_the_schema_holds_every_parameter(
    props: Seq<(Seq<char>, Seq<char>)>,
    required: Seq<Seq<char>>,
    i: int,
    j: int,
)
    ensures
        0 <= i < props.len() ==> text::holds(
            object_schema(props, required),
            json::json_string(props[i].0) + seq![':'] + props[i].1,
        ),
        0 <= j < required.len() ==> text::holds(
            object_schema(props, required),
            json::json_string(required[j]),
        ),
{
    reveal_strlit(":");
    assert(":"@ =~= seq![':']);
    let entries = props.map_values(|p: (Seq<char>, Seq<char>)| entry_json(p));
    let names = required.map_values(|n: Seq<char>| json::json_string(n));
    let a = "{\"properties\":{"@;
    let b = "},\"required\":"@;
    let c = ",\"type\":\"object\"}"@;
    let e = text::join(entries, ","@);
    let r = text::join(names, ","@);
    let s = object_schema(props, required);
    assert(s =~= a + e + (b + ("["@ + r + "]"@) + c));
    assert(s =~= (a + e + b + "["@) + r + ("]"@ + c));
    if 0 <= i < props.len() {
        text::law_joining_keeps_every_part(entries, ","@, i);
        let x = entries[i];
        let (u, v) = choose|u: Seq<char>, v: Seq<char>| e == #[trigger] (u + x + v);
        assert(s =~= (a + u) + x + (v + (b + ("["@ + r + "]"@) + c)));
    }
    if 0 <= j < required.len() {
        text::law_joining_keeps_every_part(names, ","@, j);
        let x = names[j];
        let (u, v) = choose|u: Seq<char>, v: Seq<char>| r == #[trigger] (u + x + v);
        assert(s =~= (a + e + b + "["@ + u) + x + (v + ("]"@ + c)));
    }
}

/// The name of the type that stands for a tool is made word by word: each word of
/// the name, with its first character in upper case.
pub proof fn law_type_names_are_made_word_by_word(words: Seq<Seq<char>>, word: Seq<char>)
    ensures
        word.len() > 0 ==> pascal_words(words.push(word)) == pascal_words(words) + upper_char(
            word[0],
        ) + word.skip(1),
        word.len() == 0 ==> pascal_words(words.push(word)) == pascal_words(words),
        pascal_words(Seq::empty()).len() == 0,
{
    assert(words.push(word).drop_last() =~= words);
}

/// The source that takes the place of a function does what the function did: it
/// reads every parameter under its own name, and ends with the body of the
/// function, as it is.
pub proof fn law_the_expansion_does_what_the_function_did(
    d: ToolDeclView,
    tool_trait: Seq<char>,
    body: Seq<char>,
    i: int,
)
    ensures
        text::holds(expansion(d, tool_trait, body), body + "\n}\n}\n"@),
        text::holds(expansion(d, tool_trait, body), literal(d.name)),
        text::holds(expansion(d, tool_trait, body), literal(d.description)),
        0 <= i < d.params.len() ==> text::holds(
            expansion(d, tool_trait, body),
            "let "@ + d.params[i].0 + ": "@ + d.params[i].1
                + " = serde_json::from_value(args.get("@ + literal(d.params[i].0),
        ),
{
    let p1 = "pub struct "@ + d.struct_name + ";\n\n#[async_trait::async_trait]\nimpl "@
        + tool_trait + " for "@ + d.struct_name + " {\nfn name(&self) -> &str {\n"@;
    let n = literal(d.name);
    let about = literal(d.description);
    let properties = text::join(
        d.params.map_values(|p: (Seq<char>, Seq<char>)| property_statement(p)),
        ""@,
    );
    let required = text::join(
        d.params.map_values(|p: (Seq<char>, Seq<char>)| required_element(p)),
        ", "@,
    );
    let statements = d.params.map_values(
        |p: (Seq<char>, Seq<char>)| reading_statement(d.name, p),
    );
    let reads = text::join(statements, ""@);
    let end = "\n}\n}\n"@;
    let q1 = "\n}\n\nfn description(&self) -> &str {\n"@;
    let q2
        = "\n}\n\nfn parameters_schema(&self) -> serde_json::Value {\nlet mut props = serde_json::Map::new();\n"@;
    let q3 = "serde_json::json!({\"type\": \"object\", \"properties\": props, \"required\": ["@;
    let q4
        = "]})\n}\n\nasync fn execute(&self, args: serde_json::Value) -> anyhow::Result<String> {\n"@;
    let s1 = p1 + n;
    let s2 = s1 + q1;
    let s3 = s2 + about;
    let s4 = s3 + q2;
    let s5 = s4 + properties;
    let s6 = s5 + q3;
    let s7 = s6 + required;
    let s8 = s7 + q4;
    let s9 = s8 + reads;
    let s10 = s9 + body;
    let s = s10 + end;
    assert(s == expansion(d, tool_trait, body));
    text::lemma_holds_ends(p1, n);
    text::lemma_holds_on(s1, q1, n);
    text::lemma_holds_ends(s2, about);
    lemma_holds_after_two(s2, about, q2, n);
    lemma_holds_after_two(s4, properties, q3, n);
    lemma_holds_after_two(s6, required, q4, n);
    lemma_holds_after_two(s8, reads, body, n);
    text::lemma_holds_on(s10, end, n);
    text::lemma_holds_on(s3, q2, about);
    lemma_holds_after_two(s4, properties, q3, about);
    lemma_holds_after_two(s6, required, q4, about);
    lemma_holds_after_two(s8, reads, body, about);
    text::lemma_holds_on(s10, end, about);
    text::lemma_holds_ends(s9, body + end);
    assert(s9 + (body + end) =~= s);
    if 0 <= i < d.params.len() {
        let p = d.params[i];
        let x = statements[i];
        let l = literal(p.0);
        let h1 = "let "@ + p.0 + ": "@ + p.1 + " = serde_json::from_value(args.get("@ + l;
        let t1
            = ").cloned().unwrap_or(serde_json::Value::Null)).map_err(|e| anyhow::anyhow!(\"tool '{}': failed to deserialize parameter '{}': {}\", "@;
        let y1 = h1 + t1;
        let y2 = y1 + literal(d.name);
        let y3 = y2 + ", "@;
        let y4 = y3 + l;
        assert(x == y4 + ", e))?;\n"@);
        text::lemma_holds_ends(h1, t1);
        lemma_holds_after_two(y1, literal(d.name), ", "@, h1);
        lemma_holds_after_two(y3, l, ", e))?;\n"@, h1);
        text::law_joining_keeps_every_part(statements, ""@, i);
        text::lemma_holds_within(reads, x, h1);
        text::lemma_holds_on(reads, s8, h1);
        lemma_holds_after_two(s9, body, end, h1);
    }
}

proof fn lemma_holds_after_two(s: Seq<char>, a: Seq<char>, b: Seq<char>, part: Seq<char>)
    requires
        text::holds(s, part) || text::holds(s + a, part),
    ensures
        text::holds(s + a, part),
        text::holds(s + a + b, part),
{
    if text::holds(s, part) {
        text::lemma_holds_on(s, a, part);
    }
    text::lemma_holds_on(s + a, b, part);
}

/// The schema of a tool, member by member.
spec fn schema_members(
    props: Seq<(Seq<char>, Seq<char>)>,
    required: Seq<Seq<char>>,
) -> Seq<(Seq<char>, Seq<char>)> {
    seq![
        ("properties"@, json::object_of(props)),
        ("required"@, json::json_array(required_texts(required))),
        ("type"@, json::json_string("object"@)),
    ]
}

/// The names of the required parameters as JSON texts.
pub open spec fn required_texts(required: Seq<Seq<char>>) -> Seq<Seq<char>> {
    required.map_values(|n: Seq<char>| json::json_string(n))
}

#[verifier::spinoff_prover]
#[verifier::rlimit(40)]
proof fn lemma_schema_members(props: Seq<(Seq<char>, Seq<char>)>, required: Seq<Seq<char>>)
    ensures
        object_schema(props, required) == json::object_of(schema_members(props, required)),
{
    reveal_strlit("{\"properties\":{");
    reveal_strlit("},\"required\":");
    reveal_strlit(",\"type\":\"object\"}");
    reveal_strlit(":");
    reveal_strlit(",");
    reveal_strlit("properties");
    reveal_strlit("required");
    reveal_strlit("type");
    reveal_strlit("object");
    json::lemma_plain_string("properties"@);
    json::lemma_plain_string("required"@);
    json::lemma_plain_string("type"@);
    json::lemma_plain_string("object"@);
    let colon = seq![':'];
    let comma = seq![','];
    assert(":"@ =~= colon);
    assert(","@ =~= comma);
    let entries = props.map_values(|p: (Seq<char>, Seq<char>)| entry_json(p));
    assert(entries =~= json::keyed_all(props));
    let inside = text::join(entries, comma);
    let list = json::json_array(required_texts(required));
    let object = json::object_of(props);
    assert(object == seq!['{'] + inside + seq!['}']);
    let kind = json::json_string("object"@);
    let m1 = seq![("properties"@, object)];
    let m2 = m1.push(("required"@, list));
    json::lemma_inner_one("properties"@, object);
    json::lemma_inner_more(m1, "required"@, list);
    json::lemma_inner_more(m2, "type"@, kind);
    assert(m2.push(("type"@, kind)) =~= schema_members(props, required));
    let k1 = json::json_string("properties"@) + colon;
    let k2 = comma + json::json_string("required"@) + colon;
    let k3 = comma + json::json_string("type"@) + colon;
    assert("{\"properties\":{"@ =~= seq!['{'] + k1 + seq!['{']);
    assert("},\"required\":"@ =~= seq!['}'] + k2);
    assert(",\"type\":\"object\"}"@ =~= k3 + kind + seq!['}']);
    assert(object_schema(props, required) =~= seq!['{'] + k1 + (seq!['{'] + inside + seq!['}']) + k2
        + list + k3 + kind + seq!['}']);
    assert(json::object_of(schema_members(props, required)) =~= seq!['{'] + (k1 + object + k2 + list
        + k3 + kind) + seq!['}']);
}

/// A schema is read as it is: an object, whose properties are those of the
/// parameters, each with its own schema, and whose required names are read as a
/// list.
pub proof fn law_schemas_are_read_back(
    props: Seq<(Seq<char>, Seq<char>)>,
    required: Seq<Seq<char>>,
    i: int,
)
    requires
        0 <= i < props.len(),
        forall|k: int| 0 <= k < props.len() ==> json::is_value((#[trigger] props[k]).1),
        forall|k: int| 0 <= k < i ==> (#[trigger] props[k]).0 != props[i].0,
    ensures
        ({
            let s = object_schema(props, required);
            &&& json::text_member(s, "type"@) == Some("object"@)
            &&& json::value_member(s, "properties"@) matches Some(object) && json::value_member(
                object,
                props[i].0,
            ) == Some(props[i].1)
            &&& json::value_member(s, "required"@) matches Some(list) && json::items(list)
                == required_texts(required)
        }),
{
    lemma_schema_member(props, required, 0);
    lemma_schema_member(props, required, 1);
    lemma_schema_member(props, required, 2);
    json::lemma_text_member(object_schema(props, required), "type"@, "object"@);
    assert forall|k: int| 0 <= k < props.len() implies json::passes((#[trigger] props[k]).1, 0) by {
        assert(json::is_value(props[k].1));
    }
    json::law_objects_are_read_back(props, i);
    let list = required_texts(required);
    assert forall|k: int| 0 <= k < list.len() implies json::passes(#[trigger] list[k], 0) by {
        json::lemma_passes_string(required[k], 0);
    }
    assert forall|k: int| 0 <= k < list.len() implies (#[trigger] list[k]).len() > 0 && list[k][0]
        != ']' by {
        assert(list[k] == json::json_string(required[k]));
        assert(list[k][0] == '"');
    }
    json::law_arrays_are_read_back(list);
}

proof fn lemma_schema_member(
    props: Seq<(Seq<char>, Seq<char>)>,
    required: Seq<Seq<char>>,
    n: int,
)
    requires
        0 <= n < 3,
        forall|k: int| 0 <= k < props.len() ==> json::is_value((#[trigger] props[k]).1),
    ensures
        json::value_member(object_schema(props, required), schema_members(props, required)[n].0)
            == Some(schema_members(props, required)[n].1),
{
    lemma_schema_members(props, required);
    reveal_strlit("properties");
    reveal_strlit("required");
    reveal_strlit("type");
    assert("properties"@.len() == 10 && "required"@.len() == 8 && "type"@.len() == 4);
    let members = schema_members(props, required);
    let list = required_texts(required);
    assert forall|k: int| 0 <= k < list.len() implies json::is_value(#[trigger] list[k]) by {
        json::law_values_are_made_of_values(required[k], props, Seq::empty());
    }
    json::law_values_are_made_of_values("object"@, props, list);
    assert forall|k: int| 0 <= k < members.len() implies json::passes(
        (#[trigger] members[k]).1,
        0,
    ) by {
        assert(json::is_value(members[k].1));
    }
    json::law_objects_are_read_back(members, n);
}

/// The character that a backslash and another character stand for.
pub open spec fn escaped(c: char) -> char {
    if c == 'n' {
        '\n'
    } else if c == 'r' {
        '\r'
    } else {
        c
    }
}

/// The text of a string literal behind its opening quotation mark, and what follows
/// the literal.
pub open spec fn read_literal(s: Seq<char>) -> Option<(Seq<char>, Seq<char>)>
    decreases s.len(),
{
    if s.len() == 0 {
        None
    } else if s[0] == '"' {
        Some((Seq::empty(), s.skip(1)))
    } else if s[0] == '\\' {
        if s.len() < 2 {
            None
        } else {
            match read_literal(s.skip(2)) {
                Some((t, rest)) => Some((seq![escaped(s[1])] + t, rest)),
                None => None,
            }
        }
    } else {
        match read_literal(s.skip(1)) {
            Some((t, rest)) => Some((seq![s[0]] + t, rest)),
            None => None,
        }
    }
}

proof fn lemma_literal_front(s: Seq<char>)
    requires
        s.len() > 0,
    ensures
        literal_chars(s) == literal_char(s[0]) + literal_chars(s.skip(1)),
    decreases s.len(),
{
    if s.len() == 1 {
        assert(s.drop_last() =~= Seq::<char>::empty());
        assert(s.skip(1) =~= Seq::<char>::empty());
        assert(literal_chars(s.drop_last()) =~= Seq::<char>::empty());
        assert(literal_chars(s) =~= literal_char(s[0]));
        assert(literal_chars(s.skip(1)) =~= Seq::<char>::empty());
    } else {
        let front = s.drop_last();
        lemma_literal_front(front);
        assert(front.skip(1) =~= s.skip(1).drop_last());
        assert(s.skip(1).last() == s.last());
        assert(literal_chars(s) =~= literal_char(s[0]) + (literal_chars(front.skip(1))
            + literal_char(s.last())));
    }
}

proof fn lemma_literal_char(c: char, rest: Seq<char>)
    ensures
        read_literal(literal_char(c) + rest) == match read_literal(rest) {
            Some((t, r)) => Some((seq![c] + t, r)),
            None => None,
        },
{
    reveal_strlit("\\\"");
    reveal_strlit("\\\\");
    reveal_strlit("\\n");
    reveal_strlit("\\r");
    let s = literal_char(c) + rest;
    if literal_char(c).len() == 2 {
        assert(s.skip(2) =~= rest);
    } else {
        assert(s.skip(1) =~= rest);
    }
}

proof fn lemma_read_literal(s: Seq<char>, rest: Seq<char>)
    ensures
        read_literal(literal_chars(s) + (seq!['"'] + rest)) == Some((s, rest)),
    decreases s.len(),
{
    let end = seq!['"'] + rest;
    if s.len() == 0 {
        assert(literal_chars(s) + end =~= end);
        assert(end.skip(1) =~= rest);
        assert(s =~= Seq::<char>::empty());
    } else {
        lemma_literal_front(s);
        let more = literal_chars(s.skip(1)) + end;
        lemma_read_literal(s.skip(1), rest);
        lemma_literal_char(s[0], more);
        assert(literal_chars(s) + end =~= literal_char(s[0]) + more);
        assert(seq![s[0]] + s.skip(1) =~= s);
    }
}

/// A literal is read as the text that it was made of, and ends where it ends,
/// whatever follows it.
pub proof fn law_literals_are_read_back(s: Seq<char>, rest: Seq<char>)
    ensures
        (literal(s) + rest)[0] == '"',
        read_literal((literal(s) + rest).skip(1)) == Some((s, rest)),
{
    reveal_strlit("\"");
    lemma_read_literal(s, rest);
    assert((literal(s) + rest).skip(1) =~= literal_chars(s) + (seq!['"'] + rest));
}

/// The names are put in an order: of two different names one comes before the other,
/// and never both; what comes before a name comes before all that it comes before.
pub proof fn law_names_are_in_order(a: Seq<char>, b: Seq<char>, c: Seq<char>)
    ensures
        !before(a, a),
        before(a, b) ==> !before(b, a),
        a != b ==> before(a, b) || before(b, a),
        before(a, b) && before(b, c) ==> before(a, c),
        a.len() > 0 && b.len() > 0 && a[0] < b[0] ==> before(a, b),
        a.len() < b.len() && a == b.take(a.len() as int) ==> before(a, b),
    decreases a.len() + b.len() + c.len(),
{
    if a.len() > 0 && b.len() > 0 {
        let c1 = if c.len() > 0 {
            c.skip(1)
        } else {
            c
        };
        law_names_are_in_order(a.skip(1), b.skip(1), c1);
        if a[0] == b[0] && a.skip(1) == b.skip(1) {
            assert(a =~= seq![a[0]] + a.skip(1));
            assert(b =~= seq![b[0]] + b.skip(1));
        }
        if a.len() < b.len() && a == b.take(a.len() as int) {
            assert(a.skip(1) =~= b.skip(1).take(a.len() - 1));
        }
    } else if a.len() > 0 {
        law_names_are_in_order(a.skip(1), b, c);
    } else {
        assert(b.len() == 0 ==> a =~= b);
    }
}

/// The attributes of a function are taken one after the other; what is no attribute
/// adds nothing.
pub proof fn law_attributes_are_taken_in_order(attrs: Seq<Seq<char>>, more: Seq<Seq<char>>)
    ensures
        attrs_syntax(attrs + more) == attrs_syntax(attrs) + attrs_syntax(more),
        attrs.len() == 1 ==> attrs_syntax(attrs) == match parsed_metas(attrs[0]) {
            Some(m) => m,
            None => Seq::empty(),
        },
    decreases more.len(),
{
    if attrs.len() == 1 {
        assert(attrs.drop_last() =~= Seq::<Seq<char>>::empty());
        assert(attrs_syntax(attrs.drop_last()) =~= Seq::<MetaSyntaxView>::empty());
        let m = match parsed_metas(attrs[0]) {
            Some(m) => m,
            None => Seq::empty(),
        };
        assert(Seq::<MetaSyntaxView>::empty() + m =~= m);
    }
    if more.len() == 0 {
        assert(attrs + more =~= attrs);
        assert(attrs_syntax(attrs) + attrs_syntax(more) =~= attrs_syntax(attrs));
    } else {
        law_attributes_are_taken_in_order(attrs, more.drop_last());
        assert((attrs + more).drop_last() =~= attrs + more.drop_last());
        let m = match parsed_metas(more.last()) {
            Some(m) => m,
            None => Seq::empty(),
        };
        assert((attrs + more).last() == more.last());
        assert(attrs_syntax(attrs) + attrs_syntax(more.drop_last()) + m =~= attrs_syntax(attrs) + (
        attrs_syntax(more.drop_last()) + m));
    }
}

/// The name of the type is that of the function, made a type's name, and `Tool`.
pub proof fn law_types_are_named_after_functions(
    metas: Seq<MetaSyntaxView>,
    attrs: Seq<MetaSyntaxView>,
    name: Seq<char>,
    params: Seq<Option<(Seq<char>, Seq<char>)>>,
)
    ensures
        ({
            let s = declared(metas, attrs, name, params).struct_name;
            &&& pascal_case(name).is_prefix_of(s)
            &&& s.skip(pascal_case(name).len() as int) == seq!['T', 'o', 'o', 'l']
        }),
{
    reveal_strlit("Tool");
    let s = declared(metas, attrs, name, params).struct_name;
    let p = pascal_case(name);
    assert(s.subrange(0, p.len() as int) =~= p);
    assert(s.skip(p.len() as int) =~= seq!['T', 'o', 'o', 'l']);
}

/// The source of a tool declares its type, implements the trait for it, hands out its
/// name and its description, and holds, for each parameter, what enters it in the
/// schema, what requires it and what reads it; the body follows what reads the
/// parameters.
#[verifier::spinoff_prover]
#[verifier::rlimit(60)]
pub proof fn law_sources_leave_nothing_out(
    d: ToolDeclView,
    tool_trait: Seq<char>,
    body: Seq<char>,
    i: int,
)
    ensures
        ({
            let e = expansion(d, tool_trait, body);
            &&& text::holds(e, "pub struct "@ + d.struct_name)
            &&& text::holds(e, tool_trait + " for "@ + d.struct_name)
            &&& text::holds(e, " {\nfn name(&self) -> &str {\n"@ + literal(d.name))
            &&& text::holds(
                e,
                "\n}\n\nfn description(&self) -> &str {\n"@ + literal(d.description),
            )
            &&& text::holds(
                e,
                "\n}\n\nfn parameters_schema(&self) -> serde_json::Value {\nlet mut props = serde_json::Map::new();\n"@
                    + text::join(
                    d.params.map_values(|p: (Seq<char>, Seq<char>)| property_statement(p)),
                    ""@,
                ),
            )
            &&& text::holds(
                e,
                "serde_json::json!({\"type\": \"object\", \"properties\": props, \"required\": ["@
                    + text::join(
                    d.params.map_values(|p: (Seq<char>, Seq<char>)| required_element(p)),
                    ", "@,
                ),
            )
            &&& text::holds(
                e,
                "]})\n}\n\nasync fn execute(&self, args: serde_json::Value) -> anyhow::Result<String> {\n"@
                    + text::join(
                    d.params.map_values(
                        |p: (Seq<char>, Seq<char>)| reading_statement(d.name, p),
                    ),
                    ""@,
                ) + body,
            )
            &&& 0 <= i < d.params.len() ==> text::holds(e, property_statement(d.params[i]))
                && text::holds(e, required_element(d.params[i])) && text::holds(
                e,
                reading_statement(d.name, d.params[i]),
            )
        }),
{
    let props = d.params.map_values(|p: (Seq<char>, Seq<char>)| property_statement(p));
    let names = d.params.map_values(|p: (Seq<char>, Seq<char>)| required_element(p));
    let reads = d.params.map_values(|p: (Seq<char>, Seq<char>)| reading_statement(d.name, p));
    let p0 = "pub struct "@;
    let p1 = d.struct_name;
    let p2 = ";\n\n#[async_trait::async_trait]\nimpl "@;
    let p3 = tool_trait;
    let p4 = " for "@;
    let p5 = d.struct_name;
    let p6 = " {\nfn name(&self) -> &str {\n"@;
    let p7 = literal(d.name);
    let p8 = "\n}\n\nfn description(&self) -> &str {\n"@;
    let p9 = literal(d.description);
    let p10 = "\n}\n\nfn parameters_schema(&self) -> serde_json::Value {\nlet mut props = serde_json::Map::new();\n"@;
    let p11 = text::join(props, ""@);
    let p12 = "serde_json::json!({\"type\": \"object\", \"properties\": props, \"required\": ["@;
    let p13 = text::join(names, ", "@);
    let p14 = "]})\n}\n\nasync fn execute(&self, args: serde_json::Value) -> anyhow::Result<String> {\n"@;
    let p15 = text::join(reads, ""@);
    let p16 = body;
    let p17 = "\n}\n}\n"@;
    let t0 = p0;
    let t1 = t0 + p1;
    let t2 = t1 + p2;
    let t3 = t2 + p3;
    let t4 = t3 + p4;
    let t5 = t4 + p5;
    let t6 = t5 + p6;
    let t7 = t6 + p7;
    let t8 = t7 + p8;
    let t9 = t8 + p9;
    let t10 = t9 + p10;
    let t11 = t10 + p11;
    let t12 = t11 + p12;
    let t13 = t12 + p13;
    let t14 = t13 + p14;
    let t15 = t14 + p15;
    let t16 = t15 + p16;
    let t17 = t16 + p17;
    assert(expansion(d, tool_trait, body) == t17);
    let x0 = p0 + p1;
    text::lemma_holds_ends(x0, Seq::empty());
    assert(x0 + Seq::<char>::empty() =~= t1);
    text::lemma_holds_on(t1, p2, x0);
    text::lemma_holds_on(t2, p3, x0);
    text::lemma_holds_on(t3, p4, x0);
    text::lemma_holds_on(t4, p5, x0);
    text::lemma_holds_on(t5, p6, x0);
    text::lemma_holds_on(t6, p7, x0);
    text::lemma_holds_on(t7, p8, x0);
    text::lemma_holds_on(t8, p9, x0);
    text::lemma_holds_on(t9, p10, x0);
    text::lemma_holds_on(t10, p11, x0);
    text::lemma_holds_on(t11, p12, x0);
    text::lemma_holds_on(t12, p13, x0);
    text::lemma_holds_on(t13, p14, x0);
    text::lemma_holds_on(t14, p15, x0);
    text::lemma_holds_on(t15, p16, x0);
    text::lemma_holds_on(t16, p17, x0);
    let x3 = p3 + p4 + p5;
    text::lemma_holds_ends(t2, x3);
    assert(t2 + x3 =~= t5);
    text::lemma_holds_on(t5, p6, x3);
    text::lemma_holds_on(t6, p7, x3);
    text::lemma_holds_on(t7, p8, x3);
    text::lemma_holds_on(t8, p9, x3);
    text::lemma_holds_on(t9, p10, x3);
    text::lemma_holds_on(t10, p11, x3);
    text::lemma_holds_on(t11, p12, x3);
    text::lemma_holds_on(t12, p13, x3);
    text::lemma_holds_on(t13, p14, x3);
    text::lemma_holds_on(t14, p15, x3);
    text::lemma_holds_on(t15, p16, x3);
    text::lemma_holds_on(t16, p17, x3);
    let x6 = p6 + p7;
    text::lemma_holds_ends(t5, x6);
    assert(t5 + x6 =~= t7);
    text::lemma_holds_on(t7, p8, x6);
    text::lemma_holds_on(t8, p9, x6);
    text::lemma_holds_on(t9, p10, x6);
    text::lemma_holds_on(t10, p11, x6);
    text::lemma_holds_on(t11, p12, x6);
    text::lemma_holds_on(t12, p13, x6);
    text::lemma_holds_on(t13, p14, x6);
    text::lemma_holds_on(t14, p15, x6);
    text::lemma_holds_on(t15, p16, x6);
    text::lemma_holds_on(t16, p17, x6);
    let x8 = p8 + p9;
    text::lemma_holds_ends(t7, x8);
    assert(t7 + x8 =~= t9);
    text::lemma_holds_on(t9, p10, x8);
    text::lemma_holds_on(t10, p11, x8);
    text::lemma_holds_on(t11, p12, x8);
    text::lemma_holds_on(t12, p13, x8);
    text::lemma_holds_on(t13, p14, x8);
    text::lemma_holds_on(t14, p15, x8);
    text::lemma_holds_on(t15, p16, x8);
    text::lemma_holds_on(t16, p17, x8);
    let x10 = p10 + p11;
    text::lemma_holds_ends(t9, x10);
    assert(t9 + x10 =~= t11);
    text::lemma_holds_on(t11, p12, x10);
    text::lemma_holds_on(t12, p13, x10);
    text::lemma_holds_on(t13, p14, x10);
    text::lemma_holds_on(t14, p15, x10);
    text::lemma_holds_on(t15, p16, x10);
    text::lemma_holds_on(t16, p17, x10);
    let x12 = p12 + p13;
    text::lemma_holds_ends(t11, x12);
    assert(t11 + x12 =~= t13);
    text::lemma_holds_on(t13, p14, x12);
    text::lemma_holds_on(t14, p15, x12);
    text::lemma_holds_on(t15, p16, x12);
    text::lemma_holds_on(t16, p17, x12);
    let x14 = p14 + p15 + p16;
    text::lemma_holds_ends(t13, x14);
    assert(t13 + x14 =~= t16);
    text::lemma_holds_on(t16, p17, x14);
    if 0 <= i < d.params.len() {
        text::law_joining_keeps_every_part(props, ""@, i);
        text::law_joining_keeps_every_part(names, ", "@, i);
        text::law_joining_keeps_every_part(reads, ""@, i);
        text::lemma_holds_ends(p10, p11);
        text::lemma_holds_within(x10, p11, props[i]);
        text::lemma_holds_within(t17, x10, props[i]);
        text::lemma_holds_ends(p12, p13);
        text::lemma_holds_within(x12, p13, names[i]);
        text::lemma_holds_within(t17, x12, names[i]);
        text::lemma_holds_ends(p14, p15);
        text::lemma_holds_on(p14 + p15, p16, p15);
        text::lemma_holds_within(x14, p15, reads[i]);
        text::lemma_holds_within(t17, x14, reads[i]);
    }
}

/// What is written for a parameter holds its name and its type: it is entered under
/// its name with the schema of its type, and read under its name into a variable of
/// its name and type, or told of under its name and that of the tool.
#[verifier::spinoff_prover]
#[verifier::rlimit(40)]
pub proof fn law_statements_name_their_parameter(tool: Seq<char>, p: (Seq<char>, Seq<char>))
    ensures
        text::holds(property_statement(p), "props.insert("@ + literal(p.0)),
        text::holds(property_statement(p), p.1),
        text::holds(reading_statement(tool, p), "let "@ + p.0 + ": "@ + p.1),
        text::holds(
            reading_statement(tool, p),
            " = serde_json::from_value(args.get("@ + literal(p.0),
        ),
        text::holds(reading_statement(tool, p), literal(tool) + ", "@ + literal(p.0)),
        literal(p.0).is_prefix_of(required_element(p)),
        required_element(p).skip(literal(p.0).len() as int) == ".to_string()"@,
{
    let a0 = "props.insert("@ + literal(p.0);
    let a1 = a0 + ".to_string(), serde_json::to_value(schemars::schema_for!("@;
    let a2 = a1 + p.1;
    let a3 = ")).unwrap());\n"@;
    text::lemma_holds_ends(a0, ".to_string(), serde_json::to_value(schemars::schema_for!("@);
    text::lemma_holds_on(a1, p.1, a0);
    text::lemma_holds_on(a2, a3, a0);
    text::lemma_holds_ends(a1, p.1);
    text::lemma_holds_on(a2, a3, p.1);
    let b0 = "let "@ + p.0 + ": "@ + p.1;
    let get = " = serde_json::from_value(args.get("@;
    let fail =
        ").cloned().unwrap_or(serde_json::Value::Null)).map_err(|e| anyhow::anyhow!(\"tool '{}': failed to deserialize parameter '{}': {}\", "@;
    let end = ", e))?;\n"@;
    let b1 = b0 + get;
    let b2 = b1 + literal(p.0);
    let b3 = b2 + fail;
    let b4 = b3 + literal(tool);
    let b5 = b4 + ", "@;
    let b6 = b5 + literal(p.0);
    assert(reading_statement(tool, p) == b6 + end);
    text::lemma_holds_ends(b0, get);
    text::lemma_holds_on(b1, literal(p.0), b0);
    text::lemma_holds_on(b2, fail, b0);
    text::lemma_holds_on(b3, literal(tool), b0);
    text::lemma_holds_on(b4, ", "@, b0);
    text::lemma_holds_on(b5, literal(p.0), b0);
    text::lemma_holds_on(b6, end, b0);
    let g = get + literal(p.0);
    text::lemma_holds_ends(b0, g);
    assert(b0 + g =~= b2);
    text::lemma_holds_on(b2, fail, g);
    text::lemma_holds_on(b3, literal(tool), g);
    text::lemma_holds_on(b4, ", "@, g);
    text::lemma_holds_on(b5, literal(p.0), g);
    text::lemma_holds_on(b6, end, g);
    let w = literal(tool) + ", "@ + literal(p.0);
    text::lemma_holds_ends(b3, w);
    assert(b3 + w =~= b6);
    text::lemma_holds_on(b6, end, w);
    let r = required_element(p);
    assert(r.subrange(0, literal(p.0).len() as int) =~= literal(p.0));
    assert(r.skip(literal(p.0).len() as int) =~= ".to_string()"@);
}

} // verus!
