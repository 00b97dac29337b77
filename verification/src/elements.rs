//! The kinds of HTML elements, each with a function that starts an element of
//! that kind without attributes and without children.
use crate::element::{ElementType, ElementWithChildren, HtmlElement};
use vstd::prelude::*;

verus! {

/// The `<main>` element.
#[derive(Debug, Copy, Clone, PartialEq, Eq)]
pub struct Main;

impl ElementType for Main {
    type Output = ();

    const TAG: &'static str = "main";

    const SELF_CLOSING: bool = false;

    const ESCAPE_CHILDREN: bool = true;

    const NAMESPACE: Option<&'static str> = None;

    open spec fn tag_name(&self) -> Seq<char> {
        "main"@
    }

    fn tag(&self) -> (tag: &str) {
        "main"
    }
}

impl ElementWithChildren for Main {

}

/// A `<main>` element without attributes and without children.
pub fn main() -> (element: HtmlElement<Main, (), ()>)
    ensures
        element == (HtmlElement { tag: Main, attributes: (), children: () }),
{
    HtmlElement { tag: Main, attributes: (), children: () }
}

/// The `<div>` element.
#[derive(Debug, Copy, Clone, PartialEq, Eq)]
pub struct Div;

impl ElementType for Div {
    type Output = ();

    const TAG: &'static str = "div";

    const SELF_CLOSING: bool = false;

    const ESCAPE_CHILDREN: bool = true;

    const NAMESPACE: Option<&'static str> = None;

    open spec fn tag_name(&self) -> Seq<char> {
        "div"@
    }

    fn tag(&self) -> (tag: &str) {
        "div"
    }
}

impl ElementWithChildren for Div {

}

/// A `<div>` element without attributes and without children.
pub fn div() -> (element: HtmlElement<Div, (), ()>)
    ensures
        element == (HtmlElement { tag: Div, attributes: (), children: () }),
{
    HtmlElement { tag: Div, attributes: (), children: () }
}

/// The `<span>` element.
#[derive(Debug, Copy, Clone, PartialEq, Eq)]
pub struct Span;

impl ElementType for Span {
    type Output = ();

    const TAG: &'static str = "span";

    const SELF_CLOSING: bool = false;

    const ESCAPE_CHILDREN: bool = true;

    const NAMESPACE: Option<&'static str> = None;

    open spec fn tag_name(&self) -> Seq<char> {
        "span"@
    }

    fn tag(&self) -> (tag: &str) {
        "span"
    }
}

impl ElementWithChildren for Span {

}

/// A `<span>` element without attributes and without children.
pub fn span() -> (element: HtmlElement<Span, (), ()>)
    ensures
        element == (HtmlElement { tag: Span, attributes: (), children: () }),
{
    HtmlElement { tag: Span, attributes: (), children: () }
}

/// The `<header>` element.
#[derive(Debug, Copy, Clone, PartialEq, Eq)]
pub struct Header;

impl ElementType for Header {
    type Output = ();

    const TAG: &'static str = "header";

    const SELF_CLOSING: bool = false;

    const ESCAPE_CHILDREN: bool = true;

    const NAMESPACE: Option<&'static str> = None;

    open spec fn tag_name(&self) -> Seq<char> {
        "header"@
    }

    fn tag(&self) -> (tag: &str) {
        "header"
    }
}

impl ElementWithChildren for Header {

}

/// A `<header>` element without attributes and without children.
pub fn header() -> (element: HtmlElement<Header, (), ()>)
    ensures
        element == (HtmlElement { tag: Header, attributes: (), children: () }),
{
    HtmlElement { tag: Header, attributes: (), children: () }
}

/// The `<section>` element.
#[derive(Debug, Copy, Clone, PartialEq, Eq)]
pub struct Section;

impl ElementType for Section {
    type Output = ();

    const TAG: &'static str = "section";

    const SELF_CLOSING: bool = false;

    const ESCAPE_CHILDREN: bool = true;

    const NAMESPACE: Option<&'static str> = None;

    open spec fn tag_name(&self) -> Seq<char> {
        "section"@
    }

    fn tag(&self) -> (tag: &str) {
        "section"
    }
}

impl ElementWithChildren for Section {

}

/// A `<section>` element without attributes and without children.
pub fn section() -> (element: HtmlElement<Section, (), ()>)
    ensures
        element == (HtmlElement { tag: Section, attributes: (), children: () }),
{
    HtmlElement { tag: Section, attributes: (), children: () }
}

/// The `<h1>` element.
#[derive(Debug, Copy, Clone, PartialEq, Eq)]
pub struct H1;

impl ElementType for H1 {
    type Output = ();

    const TAG: &'static str = "h1";

    const SELF_CLOSING: bool = false;

    const ESCAPE_CHILDREN: bool = true;

    const NAMESPACE: Option<&'static str> = None;

    open spec fn tag_name(&self) -> Seq<char> {
        "h1"@
    }

    fn tag(&self) -> (tag: &str) {
        "h1"
    }
}

impl ElementWithChildren for H1 {

}

/// A `<h1>` element without attributes and without children.
pub fn h1() -> (element: HtmlElement<H1, (), ()>)
    ensures
        element == (HtmlElement { tag: H1, attributes: (), children: () }),
{
    HtmlElement { tag: H1, attributes: (), children: () }
}

/// The `<h2>` element.
#[derive(Debug, Copy, Clone, PartialEq, Eq)]
pub struct H2;

impl ElementType for H2 {
    type Output = ();

    const TAG: &'static str = "h2";

    const SELF_CLOSING: bool = false;

    const ESCAPE_CHILDREN: bool = true;

    const NAMESPACE: Option<&'static str> = None;

    open spec fn tag_name(&self) -> Seq<char> {
        "h2"@
    }

    fn tag(&self) -> (tag: &str) {
        "h2"
    }
}

impl ElementWithChildren for H2 {

}

/// A `<h2>` element without attributes and without children.
pub fn h2() -> (element: HtmlElement<H2, (), ()>)
    ensures
        element == (HtmlElement { tag: H2, attributes: (), children: () }),
{
    HtmlElement { tag: H2, attributes: (), children: () }
}

/// The `<p>` element.
#[derive(Debug, Copy, Clone, PartialEq, Eq)]
pub struct P;

impl ElementType for P {
    type Output = ();

    const TAG: &'static str = "p";

    const SELF_CLOSING: bool = false;

    const ESCAPE_CHILDREN: bool = true;

    const NAMESPACE: Option<&'static str> = None;

    open spec fn tag_name(&self) -> Seq<char> {
        "p"@
    }

    fn tag(&self) -> (tag: &str) {
        "p"
    }
}

impl ElementWithChildren for P {

}

/// A `<p>` element without attributes and without children.
pub fn p() -> (element: HtmlElement<P, (), ()>)
    ensures
        element == (HtmlElement { tag: P, attributes: (), children: () }),
{
    HtmlElement { tag: P, attributes: (), children: () }
}

/// The `<strong>` element.
#[derive(Debug, Copy, Clone, PartialEq, Eq)]
pub struct Strong;

impl ElementType for Strong {
    type Output = ();

    const TAG: &'static str = "strong";

    const SELF_CLOSING: bool = false;

    const ESCAPE_CHILDREN: bool = true;

    const NAMESPACE: Option<&'static str> = None;

    open spec fn tag_name(&self) -> Seq<char> {
        "strong"@
    }

    fn tag(&self) -> (tag: &str) {
        "strong"
    }
}

impl ElementWithChildren for Strong {

}

/// A `<strong>` element without attributes and without children.
pub fn strong() -> (element: HtmlElement<Strong, (), ()>)
    ensures
        element == (HtmlElement { tag: Strong, attributes: (), children: () }),
{
    HtmlElement { tag: Strong, attributes: (), children: () }
}

/// The `<a>` element.
#[derive(Debug, Copy, Clone, PartialEq, Eq)]
pub struct A;

impl ElementType for A {
    type Output = ();

    const TAG: &'static str = "a";

    const SELF_CLOSING: bool = false;

    const ESCAPE_CHILDREN: bool = true;

    const NAMESPACE: Option<&'static str> = None;

    open spec fn tag_name(&self) -> Seq<char> {
        "a"@
    }

    fn tag(&self) -> (tag: &str) {
        "a"
    }
}

impl ElementWithChildren for A {

}

/// A `<a>` element without attributes and without children.
pub fn a() -> (element: HtmlElement<A, (), ()>)
    ensures
        element == (HtmlElement { tag: A, attributes: (), children: () }),
{
    HtmlElement { tag: A, attributes: (), children: () }
}

/// The `<button>` element.
#[derive(Debug, Copy, Clone, PartialEq, Eq)]
pub struct Button;

impl ElementType for Button {
    type Output = ();

    const TAG: &'static str = "button";

    const SELF_CLOSING: bool = false;

    const ESCAPE_CHILDREN: bool = true;

    const NAMESPACE: Option<&'static str> = None;

    open spec fn tag_name(&self) -> Seq<char> {
        "button"@
    }

    fn tag(&self) -> (tag: &str) {
        "button"
    }
}

impl ElementWithChildren for Button {

}

/// A `<button>` element without attributes and without children.
pub fn button() -> (element: HtmlElement<Button, (), ()>)
    ensures
        element == (HtmlElement { tag: Button, attributes: (), children: () }),
{
    HtmlElement { tag: Button, attributes: (), children: () }
}

/// The `<style>` element.
#[derive(Debug, Copy, Clone, PartialEq, Eq)]
pub struct Style;

impl ElementType for Style {
    type Output = ();

    const TAG: &'static str = "style";

    const SELF_CLOSING: bool = false;

    const ESCAPE_CHILDREN: bool = false;

    const NAMESPACE: Option<&'static str> = None;

    open spec fn tag_name(&self) -> Seq<char> {
        "style"@
    }

    fn tag(&self) -> (tag: &str) {
        "style"
    }
}

impl ElementWithChildren for Style {

}

/// A `<style>` element without attributes and without children.
pub fn style() -> (element: HtmlElement<Style, (), ()>)
    ensures
        element == (HtmlElement { tag: Style, attributes: (), children: () }),
{
    HtmlElement { tag: Style, attributes: (), children: () }
}

/// The `<input>` element.
#[derive(Debug, Copy, Clone, PartialEq, Eq)]
pub struct Input;

impl ElementType for Input {
    type Output = ();

    const TAG: &'static str = "input";

    const SELF_CLOSING: bool = true;

    const ESCAPE_CHILDREN: bool = true;

    const NAMESPACE: Option<&'static str> = None;

    open spec fn tag_name(&self) -> Seq<char> {
        "input"@
    }

    fn tag(&self) -> (tag: &str) {
        "input"
    }
}

/// A `<input>` element without attributes and without children.
pub fn input() -> (element: HtmlElement<Input, (), ()>)
    ensures
        element == (HtmlElement { tag: Input, attributes: (), children: () }),
{
    HtmlElement { tag: Input, attributes: (), children: () }
}

/// The `<br>` element.
#[derive(Debug, Copy, Clone, PartialEq, Eq)]
pub struct Br;

impl ElementType for Br {
    type Output = ();

    const TAG: &'static str = "br";

    const SELF_CLOSING: bool = true;

    const ESCAPE_CHILDREN: bool = true;

    const NAMESPACE: Option<&'static str> = None;

    open spec fn tag_name(&self) -> Seq<char> {
        "br"@
    }

    fn tag(&self) -> (tag: &str) {
        "br"
    }
}

/// A `<br>` element without attributes and without children.
pub fn br() -> (element: HtmlElement<Br, (), ()>)
    ensures
        element == (HtmlElement { tag: Br, attributes: (), children: () }),
{
    HtmlElement { tag: Br, attributes: (), children: () }
}

} // verus!
