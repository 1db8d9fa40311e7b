//! Which number lands in which field: the parser's reading of each part of a
//! surface, stated over the tokens it reads.

use vstd::prelude::*;
use crate::lexer::{LexItem, TokenView};
use crate::number::{float_text, int_value};
use crate::lexer::bare_bytes;
use crate::parser::{
    peek, spec_parse_brush, spec_parse_brushes, spec_parse_edict, spec_parse_entities,
    spec_parse_entity, spec_parse_legacy_alignment, spec_parse_point, spec_parse_q2_ext,
    spec_parse_surface, spec_parse_surfaces, spec_parse_valve_alignment,
};
use crate::repr::{
    default_q2ext, AlignmentView, PointView, Quake2SurfaceExtensionView, SurfaceView,
    TextureAxesView,
};

verus! {

/// Item `i` of `s` is the token `t`.
pub open spec fn token_at(s: Seq<LexItem>, i: int, t: TokenView) -> bool {
    0 <= i < s.len() && (s[i] matches Ok(x) && x.token == t)
}

/// Item `i` of `s` is a bare string `x` that is read as an `f64`.
pub open spec fn number_at(s: Seq<LexItem>, i: int, x: Seq<u8>) -> bool {
    token_at(s, i, TokenView::BareString(x)) && float_text(x)
}

/// `( x y z )` is the point with coordinates `x`, `y`, `z`, in that order.
pub proof fn law_point_fields(s: Seq<LexItem>, x: Seq<u8>, y: Seq<u8>, z: Seq<u8>)
    requires
        token_at(s, 0, TokenView::OpenParen),
        number_at(s, 1, x),
        number_at(s, 2, y),
        number_at(s, 3, z),
        token_at(s, 4, TokenView::CloseParen),
    ensures
        spec_parse_point(s) == Ok::<(PointView, Seq<LexItem>), crate::error::TextParseView>(
            (PointView { x, y, z }, s.skip(5)),
        ),
{
    reveal(spec_parse_point);
    assert(s.drop_first().drop_first().drop_first().drop_first().drop_first() =~= s.skip(5));
}

/// The five numbers `a b c d e` of a legacy alignment are, in order, the
/// offsets along x and y, the rotation and the scales along x and y; there
/// are no texture axes.
pub proof fn law_legacy_fields(
    s: Seq<LexItem>,
    a: Seq<u8>,
    b: Seq<u8>,
    c: Seq<u8>,
    d: Seq<u8>,
    e: Seq<u8>,
)
    requires
        number_at(s, 0, a),
        number_at(s, 1, b),
        number_at(s, 2, c),
        number_at(s, 3, d),
        number_at(s, 4, e),
    ensures
        spec_parse_legacy_alignment(s) == Ok::<(AlignmentView, Seq<LexItem>), crate::error::TextParseView>(
            (
                AlignmentView {
                    offset_x: a,
                    offset_y: b,
                    rotation: c,
                    scale_x: d,
                    scale_y: e,
                    axes: None,
                },
                s.skip(5),
            ),
        ),
{
    reveal(spec_parse_legacy_alignment);
    assert(s.drop_first().drop_first().drop_first().drop_first().drop_first() =~= s.skip(5));
}

/// In a Valve220 alignment `[ a b c d ] [ e f g h ] r sx sy`, the u axis is
/// `(a, b, c)` and the v axis `(e, f, g)`, the offsets along x and y are `d`
/// and `h`, then come the rotation and the scales along x and y.
pub proof fn law_valve_fields(
    s: Seq<LexItem>,
    a: Seq<u8>,
    b: Seq<u8>,
    c: Seq<u8>,
    d: Seq<u8>,
    e: Seq<u8>,
    f: Seq<u8>,
    g: Seq<u8>,
    h: Seq<u8>,
    r: Seq<u8>,
    sx: Seq<u8>,
    sy: Seq<u8>,
)
    requires
        token_at(s, 0, TokenView::OpenSquare),
        number_at(s, 1, a),
        number_at(s, 2, b),
        number_at(s, 3, c),
        number_at(s, 4, d),
        token_at(s, 5, TokenView::CloseSquare),
        token_at(s, 6, TokenView::OpenSquare),
        number_at(s, 7, e),
        number_at(s, 8, f),
        number_at(s, 9, g),
        number_at(s, 10, h),
        token_at(s, 11, TokenView::CloseSquare),
        number_at(s, 12, r),
        number_at(s, 13, sx),
        number_at(s, 14, sy),
    ensures
        spec_parse_valve_alignment(s) == Ok::<(AlignmentView, Seq<LexItem>), crate::error::TextParseView>(
            (
                AlignmentView {
                    offset_x: d,
                    offset_y: h,
                    rotation: r,
                    scale_x: sx,
                    scale_y: sy,
                    axes: Some(
                        TextureAxesView {
                            u: PointView { x: a, y: b, z: c },
                            v: PointView { x: e, y: f, z: g },
                        },
                    ),
                },
                s.skip(15),
            ),
        ),
{
    reveal(spec_parse_valve_alignment);
    assert(s.skip(0).drop_first() =~= s.skip(1));
    assert(s.skip(1).drop_first() =~= s.skip(2));
    assert(s.skip(2).drop_first() =~= s.skip(3));
    assert(s.skip(3).drop_first() =~= s.skip(4));
    assert(s.skip(4).drop_first() =~= s.skip(5));
    assert(s.skip(5).drop_first() =~= s.skip(6));
    assert(s.skip(6).drop_first() =~= s.skip(7));
    assert(s.skip(7).drop_first() =~= s.skip(8));
    assert(s.skip(8).drop_first() =~= s.skip(9));
    assert(s.skip(9).drop_first() =~= s.skip(10));
    assert(s.skip(10).drop_first() =~= s.skip(11));
    assert(s.skip(11).drop_first() =~= s.skip(12));
    assert(s.skip(12).drop_first() =~= s.skip(13));
    assert(s.skip(13).drop_first() =~= s.skip(14));
    assert(s.skip(14).drop_first() =~= s.skip(15));
    assert(s.skip(0) =~= s);
}

/// The Quake 2 attributes `c f v` are the content flags read from `c`, the
/// surface flags read from `f`, and the value `v`, in that order.
pub proof fn law_q2_fields(
    s: Seq<LexItem>,
    c: Seq<u8>,
    f: Seq<u8>,
    v: Seq<u8>,
    ci: i32,
    fi: i32,
)
    requires
        token_at(s, 0, TokenView::BareString(c)),
        int_value(c) == Some(ci),
        token_at(s, 1, TokenView::BareString(f)),
        int_value(f) == Some(fi),
        number_at(s, 2, v),
    ensures
        spec_parse_q2_ext(s) == Ok::<(Quake2SurfaceExtensionView, Seq<LexItem>), crate::error::TextParseView>(
            (
                Quake2SurfaceExtensionView { content_flags: ci, surface_flags: fi, surface_value: v },
                s.skip(3),
            ),
        ),
{
    reveal(spec_parse_q2_ext);
    assert(s.drop_first().drop_first().drop_first() =~= s.skip(3));
}

/// A quoted key followed by a quoted value adds the pair (key, value), in
/// that order, in front of the pairs read after them.
pub proof fn law_edict_pair(s: Seq<LexItem>, k: Seq<u8>, v: Seq<u8>)
    requires
        token_at(s, 0, TokenView::QuotedString(k)),
        token_at(s, 1, TokenView::QuotedString(v)),
    ensures
        spec_parse_edict(s) == match spec_parse_edict(s.skip(2)) {
            Ok((rest, r)) => Ok((seq![(k, v)] + rest, r)),
            Err(e) => Err(e),
        },
{
    assert(s.drop_first().drop_first() =~= s.skip(2));
}

/// A Quake 1 surface `( x1 y1 z1 ) ( x2 y2 z2 ) ( x3 y3 z3 ) T a b c d e`
/// followed by a token that is not a bare string: the three points in order,
/// the texture name of `T`, the legacy alignment `a b c d e`, and the default
/// Quake 2 attributes.
pub proof fn law_quake1_surface(
    s: Seq<LexItem>,
    p1: PointView,
    p2: PointView,
    p3: PointView,
    tex: TokenView,
    a: Seq<u8>,
    b: Seq<u8>,
    c: Seq<u8>,
    d: Seq<u8>,
    e: Seq<u8>,
)
    requires
        token_at(s, 0, TokenView::OpenParen),
        number_at(s, 1, p1.x),
        number_at(s, 2, p1.y),
        number_at(s, 3, p1.z),
        token_at(s, 4, TokenView::CloseParen),
        token_at(s, 5, TokenView::OpenParen),
        number_at(s, 6, p2.x),
        number_at(s, 7, p2.y),
        number_at(s, 8, p2.z),
        token_at(s, 9, TokenView::CloseParen),
        token_at(s, 10, TokenView::OpenParen),
        number_at(s, 11, p3.x),
        number_at(s, 12, p3.y),
        number_at(s, 13, p3.z),
        token_at(s, 14, TokenView::CloseParen),
        token_at(s, 15, tex),
        number_at(s, 16, a),
        number_at(s, 17, b),
        number_at(s, 18, c),
        number_at(s, 19, d),
        number_at(s, 20, e),
        s.len() > 21,
        s[21] matches Ok(t) && !(t.token is BareString),
    ensures
        spec_parse_surface(s) == Ok::<(SurfaceView, Seq<LexItem>), crate::error::TextParseView>(
            (
                SurfaceView {
                    half_space: (p1, p2, p3),
                    texture: bare_bytes(tex),
                    alignment: AlignmentView {
                        offset_x: a,
                        offset_y: b,
                        rotation: c,
                        scale_x: d,
                        scale_y: e,
                        axes: None,
                    },
                    q2ext: default_q2ext(),
                },
                s.skip(21),
            ),
        ),
{
    law_point_fields(s, p1.x, p1.y, p1.z);
    law_point_fields(s.skip(5), p2.x, p2.y, p2.z);
    law_point_fields(s.skip(10), p3.x, p3.y, p3.z);
    assert(s.skip(5).skip(5) =~= s.skip(10));
    assert(s.skip(10).skip(5) =~= s.skip(15));
    assert(s.skip(15).drop_first() =~= s.skip(16));
    law_legacy_fields(s.skip(16), a, b, c, d, e);
    assert(s.skip(16).skip(5) =~= s.skip(21));
}

/// A surface that a `(` opens comes first among the surfaces read from
/// there, before those read after it.
pub proof fn law_surfaces_order(s: Seq<LexItem>)
    requires
        token_at(s, 0, TokenView::OpenParen),
    ensures
        spec_parse_surfaces(s) == match spec_parse_surface(s) {
            Ok((surface, s1)) => match spec_parse_surfaces(s1) {
                Ok((rest, r)) => Ok((seq![surface] + rest, r)),
                Err(e) => Err(e),
            },
            Err(e) => Err(e),
        },
{
    assert(peek(s) == Ok::<_, crate::error::TextParseView>(Some(s[0]->Ok_0)));
}

/// A brush that a `{` opens comes first among the brushes read from there,
/// before those read after it.
pub proof fn law_brushes_order(s: Seq<LexItem>)
    requires
        token_at(s, 0, TokenView::OpenCurly),
    ensures
        spec_parse_brushes(s) == match spec_parse_brush(s) {
            Ok((brush, s1)) => match spec_parse_brushes(s1) {
                Ok((rest, r)) => Ok((seq![brush] + rest, r)),
                Err(e) => Err(e),
            },
            Err(e) => Err(e),
        },
{
}

/// The entity read first comes first in the map, before those read after it.
pub proof fn law_entities_order(s: Seq<LexItem>)
    requires
        s.len() > 0,
    ensures
        spec_parse_entities(s) == match spec_parse_entity(s) {
            Ok((entity, s1)) => match spec_parse_entities(s1) {
                Ok(rest) => Ok(seq![entity] + rest),
                Err(e) => Err(e),
            },
            Err(e) => Err(e),
        },
{
}

} // verus!
