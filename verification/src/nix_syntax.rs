//! Reading a Nix source with `rnix` into the syntax tree that the module
//! documentation and the service registry walk.
use vstd::prelude::*;
use rnix::ast::{Attr, AttrSet, Attrpath, Expr, HasEntry, InterpolPart};
use rowan::ast::AstNode;
use crate::nix_parser::{NixAttr, NixBinding, NixExpr, NixNode, NixStrPart};

verus! {

#[verifier::external_type_specification]
#[verifier::external_body]
pub struct ExRnixExpr(rnix::ast::Expr);

#[verifier::external_type_specification]
#[verifier::external_body]
pub struct ExRnixStr(rnix::ast::Str);

#[verifier::external_type_specification]
#[verifier::external_body]
pub struct ExRnixAttrpath(rnix::ast::Attrpath);

#[verifier::external_type_specification]
#[verifier::external_body]
pub struct ExRnixAttrSet(rnix::ast::AttrSet);

/// The root expression that `rnix::Root::parse` finds in `source`, if
/// any, converted node by node into a `NixNode`.
pub uninterp spec fn nix_tree(source: Seq<char>) -> Option<NixNode>;

/// `rnix::Root::parse(source)`, then the root expression of its tree, if
/// any, converted by `node`. The result is named `nix_tree` of the source;
/// nothing more is claimed of it.
#[verifier::external_body]
pub(crate) fn parse_nix(source: &str) -> (r: Option<NixNode>)
    ensures
        r == nix_tree(source@),
{
    rnix::Root::parse(source).tree().expr().map(|e| node(&e))
}

/// An `rnix` expression as a `NixNode`: its source text and its shape.
#[verifier::external_body]
fn node(e: &Expr) -> NixNode {
    NixNode { text: e.syntax().text().to_string(), expr: expr_of(e) }
}

/// An optional child expression, converted by `node`.
#[verifier::external_body]
fn boxed(e: Option<Expr>) -> Option<Box<NixNode>> {
    e.map(|x| Box::new(node(&x)))
}

/// The normalized parts of an `rnix` string (`Str::normalized_parts`).
#[verifier::external_body]
fn parts(s: &rnix::ast::Str) -> Vec<NixStrPart> {
    s.normalized_parts().into_iter().map(|p| match p {
        InterpolPart::Literal(l) => NixStrPart::Literal(l),
        InterpolPart::Interpolation(i) => NixStrPart::Interpolation(i.expr().map(|e| node(&e))),
    }).collect()
}

/// The attributes of an `rnix` attribute path, in order.
#[verifier::external_body]
fn attrs(p: &Attrpath) -> Vec<NixAttr> {
    p.attrs().map(|a| match a {
        Attr::Ident(i) => NixAttr::Ident(i.ident_token().map(|t| t.text().to_string())),
        Attr::Str(s) => NixAttr::Str(parts(&s)),
        Attr::Dynamic(d) => NixAttr::Dynamic(d.syntax().text().to_string()),
    }).collect()
}

/// The `path = value;` entries of an `rnix` attribute set, in order.
#[verifier::external_body]
fn bindings(s: &AttrSet) -> Vec<NixBinding> {
    s.attrpath_values().map(|av| NixBinding {
        path: av.attrpath().map(|p| attrs(&p)),
        value: av.value().map(|v| node(&v)),
    }).collect()
}

/// The shape of an `rnix` expression: the expressions that wrap one body,
/// each by its body; the others by `expr_data`.
#[verifier::external_body]
fn expr_of(e: &Expr) -> NixExpr {
    match e {
        Expr::Lambda(l) => NixExpr::Lambda(boxed(l.body())),
        Expr::LetIn(l) => NixExpr::LetIn(boxed(l.body())),
        Expr::With(w) => NixExpr::With(boxed(w.body())),
        Expr::Assert(a) => NixExpr::Assert(boxed(a.body())),
        Expr::Paren(p) => NixExpr::Paren(boxed(p.expr())),
        _ => expr_data(e),
    }
}

/// The shape of an `rnix` expression that holds data: attribute sets,
/// applications, identifiers, selections, strings and lists; every other
/// one is `Other`.
#[verifier::external_body]
fn expr_data(e: &Expr) -> NixExpr {
    match e {
        Expr::AttrSet(s) => NixExpr::AttrSet(bindings(s)),
        Expr::Apply(a) => NixExpr::Apply(boxed(a.lambda()), boxed(a.argument())),
        Expr::Ident(i) => NixExpr::Ident(i.ident_token().map(|t| t.text().to_string())),
        Expr::Select(s) => NixExpr::Select(s.attrpath().map(|p| attrs(&p))),
        Expr::Str(s) => NixExpr::Str(parts(s)),
        Expr::List(l) => NixExpr::List(l.items().map(|x| node(&x)).collect()),
        _ => NixExpr::Other,
    }
}

} // verus!
