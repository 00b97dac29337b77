use leptos_blitz::attribute::{attributes_to_html, Attr, Attribute, Class, Href, Id, Shareable, Style};
use leptos_blitz::element::{AddAnyAttr, ElementChild};
use leptos_blitz::elements::{a, br, div, p, span, style};
use leptos_blitz::event::click;
use leptos_blitz::inert::InertElement;
use leptos_blitz::view::{Position, RenderHtml};
use std::borrow::Cow;

#[test]
fn text_is_escaped() {
    assert_eq!("a < b && c > d".to_html(), "a &lt; b &amp;&amp; c &gt; d");
    assert_eq!("say \"hi\"".to_html(), "say \"hi\"");
    assert_eq!("é ü".to_html(), "é ü");
    assert_eq!(String::from("<").to_html(), "&lt;");
}

#[test]
fn an_empty_text_is_written_as_a_space() {
    assert_eq!("".to_html(), " ");
    let mut buf = String::new();
    let mut position = Position::FirstChild;
    "".to_html_with_buf(&mut buf, &mut position, false, false);
    assert_eq!(buf, "");
    assert_eq!(position, Position::NextChildAfterText);
}

#[test]
fn a_text_after_a_text_is_parted_by_a_marker() {
    assert_eq!(("a", "b").to_html(), "a<!>b");
    assert_eq!(("a", 1u8, true).to_html(), "a<!>1<!>true");
    assert_eq!((span(), "b").to_html(), "<span></span>b");
    assert_eq!(("a", span(), "b").to_html(), "a<span></span>b");
    assert_eq!(RenderHtml::to_html(()), "");
    assert_eq!(RenderHtml::to_html(("a",)), "a");
}

#[test]
fn unescaped_text_is_written_as_it_is() {
    let mut buf = String::from(">");
    let mut position = Position::NextChildAfterText;
    "<b>".to_html_with_buf(&mut buf, &mut position, false, false);
    assert_eq!(buf, "><!><b>");
}

#[test]
fn scalars_are_written_as_text() {
    assert_eq!(0u64.to_html(), "0");
    assert_eq!((-5i32).to_html(), "-5");
    assert_eq!('<'.to_html(), "<");
    assert_eq!(false.to_html(), "false");
}

#[test]
fn elements_are_written_with_tags() {
    assert_eq!(div().to_html(), "<div></div>");
    assert_eq!(br().to_html(), "<br>");
    assert_eq!(div().child("x").child(span().child("y")).to_html(), "<div>x<span>y</span></div>");
    assert_eq!(p().child("a").child("b").to_html(), "<p>a<!>b</p>");
    assert_eq!(div().child("<").to_html(), "<div>&lt;</div>");
    assert_eq!(style().child("a > b {}").to_html(), "<style>a > b {}</style>");
}

#[test]
fn attributes_are_written_escaped_with_class_and_style_last() {
    let view = a()
        .add_any_attr(Attr(Class, "one"))
        .add_any_attr(Attr(Href, "/x?a=1&b=\"2\""))
        .add_any_attr(Attr(Class, "two"))
        .child("go");
    assert_eq!(
        view.to_html(),
        "<a href=\"/x?a=1&amp;b=&quot;2&quot;\" class=\"one two\">go</a>"
    );
    let styled = div().style("color:red").style("margin:0").on(click, 3);
    assert_eq!(styled.to_html(), "<div style=\"color:red;margin:0\"></div>");
}

#[test]
fn gathered_text_is_trimmed() {
    let mut buf = String::new();
    let inner = attributes_to_html(
        (Attr(Class, "  a  "), Attr(Style, "\tb;\n"), Attr(Id, " i ")),
        &mut buf,
    );
    assert_eq!(buf, " id=\" i \" class=\"a\" style=\"b;\"");
    assert_eq!(inner, "");
    let mut none = String::new();
    attributes_to_html((), &mut none);
    assert_eq!(none, "");
}

#[test]
fn estimates_of_length() {
    assert_eq!("héllo".html_len(), 6);
    assert_eq!(String::from("abc").html_len(), 3);
    assert_eq!(Attr(Id, "abc").html_len(), 2 + 3 + 3);
    assert_eq!(div().child("abc").html_len(), 2 + 3 + 0 + 3 + 3 + 3);
    assert_eq!(br().html_len(), 3 + 2);
    assert_eq!(7u8.html_len(), 0);
    assert_eq!(RenderHtml::html_len(&()), 0);
}

#[test]
fn inert_markup_is_written_as_it_is() {
    let view = InertElement::new(Cow::Borrowed("<p>&amp;</p>"));
    assert_eq!(view.html_len(), 12);
    assert_eq!(view.to_html(), "<p>&amp;</p>");
    let nested = div().child(InertElement::new(Cow::Borrowed("<i>x</i>"))).child("y");
    assert_eq!(nested.to_html_branching(), "<div><i>x</i>y</div>");
}

#[test]
fn shared_forms_are_written_alike() {
    let attr = Attr(Id, "x");
    let shared = attr.clone().into_cloneable();
    let owned = attr.clone().into_cloneable_owned();
    let mut plain = String::new();
    let mut class = String::new();
    let mut style = String::new();
    let mut inner = String::new();
    attr.to_html(&mut plain, &mut class, &mut style, &mut inner);
    let mut from_shared = String::new();
    shared.clone().to_html(&mut from_shared, &mut class, &mut style, &mut inner);
    let mut from_owned = String::new();
    owned.clone().to_html(&mut from_owned, &mut class, &mut style, &mut inner);
    assert_eq!(plain, " id=\"x\"");
    assert_eq!(from_shared, plain);
    assert_eq!(from_owned, plain);
    assert_eq!(class, "");
    assert_eq!(style, "");
    assert_eq!(inner, "");
}

#[test]
fn every_kind_of_whitespace_is_trimmed() {
    for space in [
        '\u{9}', '\u{a}', '\u{b}', '\u{c}', '\u{d}', ' ', '\u{85}', '\u{a0}', '\u{1680}', '\u{2000}',
        '\u{2005}', '\u{200a}', '\u{2028}', '\u{2029}', '\u{202f}', '\u{205f}', '\u{3000}',
    ] {
        let mut buf = String::new();
        let value = format!("{}a b{}", space, space);
        attributes_to_html(Attr(Class, value), &mut buf);
        assert_eq!(buf, " class=\"a b\"");
    }
    for other in ['\u{200b}', '\u{180e}', '\u{1f}', '\u{feff}', '_'] {
        let mut buf = String::new();
        let value = format!("{}a{}", other, other);
        attributes_to_html(Attr(Class, value.clone()), &mut buf);
        assert_eq!(buf, format!(" class=\"{}\"", value));
    }
}
