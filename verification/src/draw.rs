//! Drawing a route as an SVG document: a ring at each point of the grid and
//! a stroke for each step of the route.

use svg::node::element::{Circle, Line, SVG};
use vstd::prelude::*;
use vstd::string::StringExecFns;

verus! {

/// The attributes of an element, each name with its value as text.
pub type Attributes = Map<Seq<char>, Seq<char>>;

#[verifier::external_type_specification]
#[verifier::external_body]
pub struct ExCircle(svg::node::element::Circle);

#[verifier::external_type_specification]
#[verifier::external_body]
pub struct ExLine(svg::node::element::Line);

#[verifier::external_type_specification]
#[verifier::external_body]
pub struct ExSvg(svg::node::element::SVG);

/// The attributes that a `circle` element carries.
pub uninterp spec fn circle_attributes(c: Circle) -> Map<Seq<char>, Seq<char>>;

/// The attributes that a `line` element carries.
pub uninterp spec fn line_attributes(l: Line) -> Map<Seq<char>, Seq<char>>;

/// The attributes that an `svg` element carries.
pub uninterp spec fn document_attributes(d: SVG) -> Map<Seq<char>, Seq<char>>;

/// The children of an `svg` element in document order, each as its tag
/// name and its attributes.
pub uninterp spec fn document_children(d: SVG) -> Seq<(Seq<char>, Map<Seq<char>, Seq<char>>)>;

/// The attributes of an element that has none.
pub open spec fn no_attributes() -> Attributes {
    Map::empty()
}

/// The children of an element that has none.
pub open spec fn no_children() -> Seq<(Seq<char>, Attributes)> {
    Seq::empty()
}

/// The character that stands for a decimal digit.
pub open spec fn digit(d: nat) -> char {
    if d == 0 {
        '0'
    } else if d == 1 {
        '1'
    } else if d == 2 {
        '2'
    } else if d == 3 {
        '3'
    } else if d == 4 {
        '4'
    } else if d == 5 {
        '5'
    } else if d == 6 {
        '6'
    } else if d == 7 {
        '7'
    } else if d == 8 {
        '8'
    } else {
        '9'
    }
}

/// A number written in decimal, without sign or leading zeros.
pub open spec fn decimal(n: nat) -> Seq<char>
    decreases n,
{
    if n < 10 {
        seq![digit(n)]
    } else {
        decimal(n / 10).push(digit(n % 10))
    }
}

/// Four numbers in decimal, separated by single spaces.
pub open spec fn decimal_quad(a: nat, b: nat, c: nat, d: nat) -> Seq<char> {
    decimal(a) + seq![' '] + decimal(b) + seq![' '] + decimal(c) + seq![' '] + decimal(d)
}

/// Where on the canvas the point with the given index lies. Index 0 is a
/// placeholder at the origin; the points `1..=9` fill the grid row by row.
pub open spec fn point_at(index: int) -> (u32, u32) {
    if index == 1 {
        (50, 50)
    } else if index == 2 {
        (100, 50)
    } else if index == 3 {
        (150, 50)
    } else if index == 4 {
        (50, 100)
    } else if index == 5 {
        (100, 100)
    } else if index == 6 {
        (150, 100)
    } else if index == 7 {
        (50, 150)
    } else if index == 8 {
        (100, 150)
    } else if index == 9 {
        (150, 150)
    } else {
        (0, 0)
    }
}

/// The attributes of a ring round `(x, y)`: radius 10, black, unfilled.
pub open spec fn ring_at(x: u32, y: u32) -> Attributes {
    no_attributes().insert("cx"@, decimal(x as nat)).insert("cy"@, decimal(y as nat)).insert(
        "r"@,
        decimal(10),
    ).insert("fill"@, "none"@).insert("stroke"@, "black"@)
}

/// The attributes of a black stroke from `(x1, y1)` to `(x2, y2)`.
pub open spec fn stroke_between(x1: u32, y1: u32, x2: u32, y2: u32) -> Attributes {
    no_attributes().insert("x1"@, decimal(x1 as nat)).insert("y1"@, decimal(y1 as nat)).insert(
        "x2"@,
        decimal(x2 as nat),
    ).insert("y2"@, decimal(y2 as nat)).insert("stroke"@, "black"@)
}

/// The attributes of the ring drawn round the point with the given index.
pub open spec fn ring_attributes(index: int) -> Attributes {
    ring_at(point_at(index).0, point_at(index).1)
}

/// The attributes of the stroke drawn from one point to another.
pub open spec fn stroke_attributes(from: int, to: int) -> Attributes {
    stroke_between(point_at(from).0, point_at(from).1, point_at(to).0, point_at(to).1)
}

/// The attributes of the drawing as a whole.
pub open spec fn canvas_attributes() -> Attributes {
    no_attributes().insert("xmlns"@, "http://www.w3.org/2000/svg"@).insert(
        "viewBox"@,
        decimal_quad(0, 0, 200, 200),
    )
}

/// The elements of the drawing of a route: the rings of the points `1..=9`
/// in order, then the strokes of the eight steps in order.
pub open spec fn drawing(path: Seq<u32>) -> Seq<(Seq<char>, Attributes)> {
    Seq::new(
        17,
        |k: int|
            if k < 9 {
                ("circle"@, ring_attributes(k + 1))
            } else {
                ("line"@, stroke_attributes(path[k - 8] as int, path[k - 7] as int))
            },
    )
}

/// Where the drawing with the given index is kept.
pub open spec fn file_path(pic_index: u32) -> Seq<char> {
    "output/"@ + decimal(pic_index as nat) + ".svg"@
}

/// `Circle::new` of svg: a `circle` element without attributes.
#[verifier::external_body]
fn circle_new() -> (c: Circle)
    ensures
        circle_attributes(c) == no_attributes(),
{
    Circle::new()
}

/// `Circle::set` of svg with a number: the attribute `name` gets the number
/// in decimal as its value, replacing an earlier value; the other attributes
/// stay.
#[verifier::external_body]
fn circle_set_number(c: Circle, name: &str, value: u32) -> (out: Circle)
    ensures
        circle_attributes(out) == circle_attributes(c).insert(name@, decimal(value as nat)),
{
    c.set(name, value)
}

/// `Circle::set` of svg with a text: the attribute `name` gets the text as
/// its value, replacing an earlier value; the other attributes stay.
#[verifier::external_body]
fn circle_set_text(c: Circle, name: &str, value: &str) -> (out: Circle)
    ensures
        circle_attributes(out) == circle_attributes(c).insert(name@, value@),
{
    c.set(name, value)
}

/// `Line::new` of svg: a `line` element without attributes.
#[verifier::external_body]
fn line_new() -> (l: Line)
    ensures
        line_attributes(l) == no_attributes(),
{
    Line::new()
}

/// `Line::set` of svg with a number: the attribute `name` gets the number in
/// decimal as its value, replacing an earlier value; the other attributes
/// stay.
#[verifier::external_body]
fn line_set_number(l: Line, name: &str, value: u32) -> (out: Line)
    ensures
        line_attributes(out) == line_attributes(l).insert(name@, decimal(value as nat)),
{
    l.set(name, value)
}

/// `Line::set` of svg with a text: the attribute `name` gets the text as its
/// value, replacing an earlier value; the other attributes stay.
#[verifier::external_body]
fn line_set_text(l: Line, name: &str, value: &str) -> (out: Line)
    ensures
        line_attributes(out) == line_attributes(l).insert(name@, value@),
{
    l.set(name, value)
}

/// `SVG::new` of svg (the crate's `Document`): an `svg` element without
/// children, whose one attribute names the SVG namespace.
#[verifier::external_body]
fn document_new() -> (d: SVG)
    ensures
        document_attributes(d) == no_attributes().insert("xmlns"@, "http://www.w3.org/2000/svg"@),
        document_children(d) == no_children(),
{
    SVG::new()
}

/// `SVG::set` of svg with four numbers: the attribute `name` gets the
/// numbers in decimal, separated by single spaces, as its value; the other
/// attributes and the children stay.
#[verifier::external_body]
fn document_set_quad(d: SVG, name: &str, a: u32, b: u32, c: u32, e: u32) -> (out: SVG)
    ensures
        document_attributes(out) == document_attributes(d).insert(
            name@,
            decimal_quad(a as nat, b as nat, c as nat, e as nat),
        ),
        document_children(out) == document_children(d),
{
    d.set(name, (a, b, c, e))
}

/// `SVG::add` of svg with a `circle` element: the element becomes the last
/// child; the attributes stay.
#[verifier::external_body]
fn document_add_circle(d: SVG, c: Circle) -> (out: SVG)
    ensures
        document_attributes(out) == document_attributes(d),
        document_children(out) == document_children(d).push(("circle"@, circle_attributes(c))),
{
    d.add(c)
}

/// `SVG::add` of svg with a `line` element: the element becomes the last
/// child; the attributes stay.
#[verifier::external_body]
fn document_add_line(d: SVG, l: Line) -> (out: SVG)
    ensures
        document_attributes(out) == document_attributes(d),
        document_children(out) == document_children(d).push(("line"@, line_attributes(l))),
{
    d.add(l)
}

/// `ToString::to_string` of std on a `u32`: the number in decimal, without
/// sign or leading zeros.
#[verifier::external_body]
fn decimal_text(n: u32) -> (s: String)
    ensures
        s@ == decimal(n as nat),
{
    n.to_string()
}

/// The canvas position of the point with the given index.
pub fn point(index: u32) -> (p: (u32, u32))
    requires
        index < 10,
    ensures
        p == point_at(index as int),
{
    let points: [(u32, u32); 10] = [
        (0, 0),
        (50, 50),
        (100, 50),
        (150, 50),
        (50, 100),
        (100, 100),
        (150, 100),
        (50, 150),
        (100, 150),
        (150, 150),
    ];
    points[index as usize]
}

/// A ring round `(x, y)`: radius 10, black, unfilled.
pub fn circle_at(x: u32, y: u32) -> (c: Circle)
    ensures
        circle_attributes(c) == ring_at(x, y),
{
    let c = circle_new();
    let c = circle_set_number(c, "cx", x);
    let c = circle_set_number(c, "cy", y);
    let c = circle_set_number(c, "r", 10);
    let c = circle_set_text(c, "fill", "none");
    circle_set_text(c, "stroke", "black")
}

/// The ring round the point with the given index.
pub fn circle(index: u32) -> (c: Circle)
    requires
        index < 10,
    ensures
        circle_attributes(c) == ring_attributes(index as int),
{
    let (x, y) = point(index);
    circle_at(x, y)
}

/// A black stroke from `(x1, y1)` to `(x2, y2)`.
pub fn line_between(x1: u32, y1: u32, x2: u32, y2: u32) -> (l: Line)
    ensures
        line_attributes(l) == stroke_between(x1, y1, x2, y2),
{
    let l = line_new();
    let l = line_set_number(l, "x1", x1);
    let l = line_set_number(l, "y1", y1);
    let l = line_set_number(l, "x2", x2);
    let l = line_set_number(l, "y2", y2);
    line_set_text(l, "stroke", "black")
}

/// The stroke from the point with index `index1` to the one with index
/// `index2`.
pub fn line(index1: u32, index2: u32) -> (l: Line)
    requires
        index1 < 10,
        index2 < 10,
    ensures
        line_attributes(l) == stroke_attributes(index1 as int, index2 as int),
{
    let (x1, y1) = point(index1);
    let (x2, y2) = point(index2);
    line_between(x1, y1, x2, y2)
}

/// The drawing of a route on a canvas of 200 by 200: nine rings, then eight
/// strokes that join the vertices at the positions `1..=9` of `path` in
/// order. Position 0 of `path` is not drawn.
pub fn render(path: &[u32; 10]) -> (document: SVG)
    requires
        forall|i: int| 1 <= i <= 9 ==> path@[i] < 10,
    ensures
        document_attributes(document) == canvas_attributes(),
        document_children(document) == drawing(path@),
{
    let mut document = document_new();
    document = document_set_quad(document, "viewBox", 0, 0, 200, 200);
    let mut i: u32 = 1;
    while i <= 9
        invariant
            1 <= i <= 10,
            document_attributes(document) == canvas_attributes(),
            document_children(document) == drawing(path@).take(i - 1),
        decreases 10 - i,
    {
        document = document_add_circle(document, circle(i));
        assert(drawing(path@).take(i - 1).push(drawing(path@)[i - 1]) =~= drawing(path@).take(
            i as int,
        ));
        i += 1;
    }
    let mut i: usize = 1;
    while i < path.len() - 1
        invariant
            1 <= i <= 9,
            path@.len() == 10,
            forall|i: int| 1 <= i <= 9 ==> path@[i] < 10,
            document_attributes(document) == canvas_attributes(),
            document_children(document) == drawing(path@).take(i + 8),
        decreases 9 - i,
    {
        let (from, to) = (path[i], path[i + 1]);
        document = document_add_line(document, line(from, to));
        assert(drawing(path@).take(i + 8).push(drawing(path@)[i + 8]) =~= drawing(path@).take(
            i + 9,
        ));
        i += 1;
    }
    assert(drawing(path@).take(17) =~= drawing(path@));
    document
}

/// The drawing of a route together with the place where it is kept, which
/// goes by the drawing's index.
pub fn export(pic_index: u32, path: &[u32; 10]) -> (out: (String, SVG))
    requires
        forall|i: int| 1 <= i <= 9 ==> path@[i] < 10,
    ensures
        out.0@ == file_path(pic_index),
        document_attributes(out.1) == canvas_attributes(),
        document_children(out.1) == drawing(path@),
{
    let mut name = String::from_str("output/");
    let digits = decimal_text(pic_index);
    name.append(digits.as_str());
    name.append(".svg");
    (name, render(path))
}

} // verus!
