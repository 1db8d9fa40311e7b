//! What every map read from text satisfies.

use vstd::prelude::*;
use crate::lex_laws::{
    all_tokens, ends_in_quote, error_line_ok, item_lines_ok, law_error_items, law_item_lines, law_tokens_no_zero, no_zero, tokens_no_zero,
};
use crate::lexer::{bare_bytes, lex, LexItem, TokenView};
use crate::number::{float_text, number_text, mantissa_text, exp_split};
use crate::parser::{
    extract, float_step, int_step, peek, spec_parse, spec_parse_alignment, spec_parse_brush,
    spec_parse_brushes, spec_parse_edict, spec_parse_entities, spec_parse_entity,
    spec_parse_legacy_alignment, spec_parse_point, spec_parse_q2_ext, spec_parse_q2_opt,
    spec_parse_surface, spec_parse_surfaces, spec_parse_valve_alignment, start_fields, then_number,
    then_token, token_step, lemma_brush_shrinks, lemma_surface_shrinks, lemma_entity_shrinks, Fields,
};
use crate::repr::{
    default_q2ext, AlignmentView, EntityView, PointView, QuakeMapView,
    SurfaceView,
};

verus! {

pub open spec fn point_ok(p: PointView) -> bool {
    float_text(p.x) && float_text(p.y) && float_text(p.z)
}

pub open spec fn alignment_ok(a: AlignmentView) -> bool {
    &&& float_text(a.offset_x)
    &&& float_text(a.offset_y)
    &&& float_text(a.rotation)
    &&& float_text(a.scale_x)
    &&& float_text(a.scale_y)
    &&& (a.axes matches Some(ax) ==> point_ok(ax.u) && point_ok(ax.v))
}

/// Numbers read as `f64`, names free of zero bytes.
pub open spec fn surface_ok(s: SurfaceView) -> bool {
    &&& point_ok(s.half_space.0)
    &&& point_ok(s.half_space.1)
    &&& point_ok(s.half_space.2)
    &&& no_zero(s.texture)
    &&& alignment_ok(s.alignment)
    &&& float_text(s.q2ext.surface_value)
}

pub open spec fn brush_ok(b: Seq<SurfaceView>) -> bool {
    forall|i: int| 0 <= i < b.len() ==> surface_ok(#[trigger] b[i])
}

pub open spec fn edict_ok(e: Seq<(Seq<u8>, Seq<u8>)>) -> bool {
    forall|i: int| 0 <= i < e.len() ==> no_zero((#[trigger] e[i]).0) && no_zero(e[i].1)
}

pub open spec fn brushes_ok(b: Seq<Seq<SurfaceView>>) -> bool {
    forall|i: int| 0 <= i < b.len() ==> brush_ok(#[trigger] b[i])
}

pub open spec fn entity_ok(e: EntityView) -> bool {
    edict_ok(e.edict) && brushes_ok(e.brushes)
}

/// Every number of the map is a text that Rust reads as an `f64`, and no
/// key, value or texture name holds a zero byte.
pub open spec fn map_ok(m: QuakeMapView) -> bool {
    forall|i: int| 0 <= i < m.entities.len() ==> entity_ok(#[trigger] m.entities[i])
}

/// The items hold no zero byte in their strings, and number their lines
/// from 1.
pub open spec fn items_ok(s: Seq<LexItem>) -> bool {
    tokens_no_zero(s) && item_lines_ok(s)
}

/// `r` is what is left of `s` after reading some items, none of which was
/// an error.
pub open spec fn consumed_ok(s: Seq<LexItem>, r: Seq<LexItem>) -> bool {
    &&& r.len() <= s.len()
    &&& r == s.skip(s.len() - r.len())
    &&& forall|i: int| 0 <= i < s.len() - r.len() ==> (#[trigger] s[i]) is Ok
}

proof fn lemma_consumed_trans()
    ensures
        forall|s: Seq<LexItem>, r1: Seq<LexItem>, r2: Seq<LexItem>|
            #![trigger consumed_ok(s, r1), consumed_ok(r1, r2)]
            consumed_ok(s, r1) && consumed_ok(r1, r2) ==> consumed_ok(s, r2),
        forall|s: Seq<LexItem>| #[trigger] consumed_ok(s, s),
{
    assert forall|s: Seq<LexItem>, r1: Seq<LexItem>, r2: Seq<LexItem>|
        #![trigger consumed_ok(s, r1), consumed_ok(r1, r2)]
        consumed_ok(s, r1) && consumed_ok(r1, r2) implies consumed_ok(s, r2) by {
        let k1 = s.len() - r1.len();
        let k2 = r1.len() - r2.len();
        assert(r2 =~= s.skip(k1 + k2));
        assert forall|i: int| 0 <= i < s.len() - r2.len() implies (#[trigger] s[i]) is Ok by {
            if i >= k1 {
                assert(s[i] == r1[i - k1]);
            }
        }
    }
    assert forall|s: Seq<LexItem>| #[trigger] consumed_ok(s, s) by {
        assert(s.skip(0) =~= s);
    }
}

proof fn lemma_extract_ok(s: Seq<LexItem>)
    requires
        items_ok(s),
    ensures
        extract(s) matches Ok((o, r)) ==> items_ok(r) && consumed_ok(s, r) && (o matches Some(t) ==> no_zero(
            bare_bytes(t.token),
        ) && t.line_number >= 1),
        extract(s) matches Err(e) ==> error_line_ok(e),
{
    lemma_consumed_trans();
    if s.len() > 0 {
        let r = s.drop_first();
        assert forall|i: int| 0 <= i < r.len() implies (#[trigger] r[i] matches Ok(t) ==> no_zero(
            bare_bytes(t.token),
        )) by {
            assert(r[i] == s[i + 1]);
        }
        assert forall|i: int| 0 <= i < r.len() implies match #[trigger] r[i] {
            Ok(t) => t.line_number >= 1,
            Err(e) => error_line_ok(e),
        } by {
            assert(r[i] == s[i + 1]);
        }
        assert(s[0] matches Ok(t) ==> no_zero(bare_bytes(t.token)));
        assert(s.skip(1) =~= r);
        assert(match s[0] {
            Ok(t) => t.line_number >= 1,
            Err(e) => error_line_ok(e),
        });
    }
}

proof fn lemma_steps_ok(s: Seq<LexItem>, tok: TokenView)
    requires
        items_ok(s),
    ensures
        token_step(s, tok) matches Ok(r) ==> items_ok(r) && consumed_ok(s, r),
        float_step(s) matches Ok((f, r)) ==> items_ok(r) && consumed_ok(s, r) && float_text(f),
        int_step(s) matches Ok((_, r)) ==> items_ok(r) && consumed_ok(s, r),
        token_step(s, tok) matches Err(e) ==> error_line_ok(e),
        float_step(s) matches Err(e) ==> error_line_ok(e),
        int_step(s) matches Err(e) ==> error_line_ok(e),
{
    lemma_consumed_trans();
    lemma_extract_ok(s);
}

pub open spec fn fields_ok(r: Fields) -> bool {
    &&& (r matches Ok((n, s)) ==> items_ok(s) && forall|i: int| 0 <= i < n.len() ==> float_text(#[trigger] n[i]))
    &&& (r matches Err(e) ==> error_line_ok(e))
}

proof fn lemma_then_ok_one(r: Fields, tok: TokenView)
    requires
        fields_ok(r),
    ensures
        fields_ok(then_token(r, tok)),
        fields_ok(then_number(r)),
{
    if let Ok((n, s)) = r {
        lemma_steps_ok(s, tok);
        if let Ok((f, s1)) = float_step(s) {
            let n2 = n.push(f);
            assert forall|i: int| 0 <= i < n2.len() implies float_text(#[trigger] n2[i]) by {
                if i < n.len() {
                    assert(n2[i] == n[i]);
                }
            }
        }
    }
}

/// Reading on keeps the numbers read so far numbers, and the items after
/// them well formed.
proof fn lemma_then_ok()
    ensures
        forall|r: Fields, tok: TokenView| fields_ok(r) ==> fields_ok(#[trigger] then_token(r, tok)),
        forall|r: Fields| fields_ok(r) ==> fields_ok(#[trigger] then_number(r)),
{
    assert forall|r: Fields, tok: TokenView| fields_ok(r) implies fields_ok(
        #[trigger] then_token(r, tok),
    ) by {
        lemma_then_ok_one(r, tok);
    }
    assert forall|r: Fields| fields_ok(r) implies fields_ok(#[trigger] then_number(r)) by {
        lemma_then_ok_one(r, TokenView::OpenParen);
    }
}

/// What follows the numbers read so far (nothing after an error).
pub open spec fn fields_rest(r: Fields) -> Seq<LexItem> {
    match r {
        Ok((_, s)) => s,
        Err(_) => Seq::empty(),
    }
}

/// Reading on consumes only items that are not errors.
proof fn lemma_then_consumed()
    ensures
        forall|r: Fields, tok: TokenView|
            #[trigger] then_token(r, tok) is Ok ==> r is Ok && consumed_ok(
                fields_rest(r),
                fields_rest(then_token(r, tok)),
            ),
        forall|r: Fields|
            #[trigger] then_number(r) is Ok ==> r is Ok && consumed_ok(
                fields_rest(r),
                fields_rest(then_number(r)),
            ),
{
    assert forall|r: Fields, tok: TokenView| #[trigger] then_token(r, tok) is Ok implies r is Ok
        && consumed_ok(fields_rest(r), fields_rest(then_token(r, tok))) by {
        if let Ok((_, s)) = r {
            lemma_extract_ok_any(s);
        }
    }
    assert forall|r: Fields| #[trigger] then_number(r) is Ok implies r is Ok && consumed_ok(
        fields_rest(r),
        fields_rest(then_number(r)),
    ) by {
        if let Ok((_, s)) = r {
            lemma_extract_ok_any(s);
        }
    }
}

/// Reading one item consumes at most that item, and only when it is not an
/// error.
proof fn lemma_extract_ok_any(s: Seq<LexItem>)
    ensures
        extract(s) matches Ok((_, r)) ==> consumed_ok(s, r),
{
    lemma_consumed_trans();
    if s.len() > 0 {
        assert(s.skip(1) =~= s.drop_first());
    }
}

proof fn lemma_point_ok(s: Seq<LexItem>)
    requires
        items_ok(s),
    ensures
        spec_parse_point(s) matches Ok((p, r)) ==> point_ok(p) && items_ok(r) && consumed_ok(s, r),
        spec_parse_point(s) matches Err(e) ==> error_line_ok(e),
{
    lemma_consumed_trans();
    reveal(spec_parse_point);
    lemma_steps_ok(s, TokenView::OpenParen);
    if let Ok(s1) = token_step(s, TokenView::OpenParen) {
        lemma_steps_ok(s1, TokenView::OpenParen);
        if let Ok((_, s2)) = float_step(s1) {
            lemma_steps_ok(s2, TokenView::OpenParen);
            if let Ok((_, s3)) = float_step(s2) {
                lemma_steps_ok(s3, TokenView::OpenParen);
                if let Ok((_, s4)) = float_step(s3) {
                    lemma_steps_ok(s4, TokenView::CloseParen);
                }
            }
        }
    }
}

proof fn lemma_legacy_ok(s: Seq<LexItem>)
    requires
        items_ok(s),
    ensures
        spec_parse_legacy_alignment(s) matches Ok((a, r)) ==> alignment_ok(a) && items_ok(r) && consumed_ok(s, r),
        spec_parse_legacy_alignment(s) matches Err(e) ==> error_line_ok(e),
{
    lemma_consumed_trans();
    lemma_then_consumed();
    reveal(spec_parse_legacy_alignment);
    lemma_then_ok();
    let r4 = then_number(then_number(then_number(then_number(start_fields(s)))));
    if let Ok((n, _)) = then_number(r4) {
        assert(float_text(n[0]) && float_text(n[1]) && float_text(n[2]) && float_text(n[3])
            && float_text(n[4]));
    }
}

proof fn lemma_valve_ok(s: Seq<LexItem>)
    requires
        items_ok(s),
    ensures
        spec_parse_valve_alignment(s) matches Ok((a, r)) ==> alignment_ok(a) && items_ok(r) && consumed_ok(s, r),
        spec_parse_valve_alignment(s) matches Err(e) ==> error_line_ok(e),
{
    lemma_consumed_trans();
    lemma_then_consumed();
    reveal(spec_parse_valve_alignment);
    lemma_then_ok();
    let o = TokenView::OpenSquare;
    let c = TokenView::CloseSquare;
    let r0 = start_fields(s);
    let r1 = then_token(r0, o);
    let r2 = then_number(r1);
    let r3 = then_number(r2);
    let r4 = then_number(r3);
    let r5 = then_number(r4);
    let r6 = then_token(r5, c);
    let r7 = then_token(r6, o);
    let r8 = then_number(r7);
    let r9 = then_number(r8);
    let r10 = then_number(r9);
    let r11 = then_number(r10);
    let r12 = then_token(r11, c);
    let r13 = then_number(r12);
    let r14 = then_number(r13);
    if let Ok((n, _)) = then_number(r14) {
        assert(float_text(n[0]) && float_text(n[1]) && float_text(n[2]) && float_text(n[3])
            && float_text(n[4]) && float_text(n[5]) && float_text(n[6]) && float_text(n[7])
            && float_text(n[8]) && float_text(n[9]) && float_text(n[10]));
    }
}

/// The text `0` of a default surface value reads as an `f64`.
proof fn lemma_zero_is_float()
    ensures
        float_text(default_q2ext().surface_value),
{
    let t = seq![48u8];
    assert(exp_split(t, 1));
    assert(t.take(1) =~= t);
    assert(mantissa_text(t.take(1))) by {
        assert(t.take(1)[0] == 48);
    }
    assert(number_text(t));
}

proof fn lemma_q2_opt_ok(s: Seq<LexItem>)
    requires
        items_ok(s),
    ensures
        spec_parse_q2_opt(s) matches Ok((q, r)) ==> float_text(q.surface_value) && items_ok(r) && consumed_ok(s, r),
        spec_parse_q2_opt(s) matches Err(e) ==> error_line_ok(e),
{
    lemma_consumed_trans();
    reveal(spec_parse_q2_ext);
    lemma_zero_is_float();
    lemma_steps_ok(s, TokenView::OpenParen);
    if let Ok((_, s1)) = int_step(s) {
        lemma_steps_ok(s1, TokenView::OpenParen);
        if let Ok((_, s2)) = int_step(s1) {
            lemma_steps_ok(s2, TokenView::OpenParen);
        }
    }
}

proof fn lemma_surface_ok(s: Seq<LexItem>)
    requires
        items_ok(s),
    ensures
        spec_parse_surface(s) matches Ok((v, r)) ==> surface_ok(v) && items_ok(r) && consumed_ok(s, r),
        spec_parse_surface(s) matches Err(e) ==> error_line_ok(e),
{
    lemma_consumed_trans();
    lemma_point_ok(s);
    if let Ok((_, s1)) = spec_parse_point(s) {
        lemma_point_ok(s1);
        if let Ok((_, s2)) = spec_parse_point(s1) {
            lemma_point_ok(s2);
            if let Ok((_, s3)) = spec_parse_point(s2) {
                lemma_extract_ok(s3);
                if let Ok((Some(_), s4)) = extract(s3) {
                    lemma_legacy_ok(s4);
                    lemma_valve_ok(s4);
                    if let Ok((_, s5)) = spec_parse_alignment(s4) {
                        lemma_q2_opt_ok(s5);
                    }
                }
            }
        }
    }
}

proof fn lemma_surfaces_ok(s: Seq<LexItem>)
    requires
        items_ok(s),
    ensures
        spec_parse_surfaces(s) matches Ok((b, r)) ==> brush_ok(b) && items_ok(r) && consumed_ok(s, r),
        spec_parse_surfaces(s) matches Err(e) ==> error_line_ok(e),
    decreases s.len(),
{
    lemma_consumed_trans();
    if let Ok(Some(t)) = peek(s) {
        if t.token == TokenView::OpenParen {
            lemma_surface_ok(s);
            lemma_surface_shrinks(s);
            if let Ok((v, s1)) = spec_parse_surface(s) {
                lemma_surfaces_ok(s1);
                if let Ok((rest, _)) = spec_parse_surfaces(s1) {
                    let b = seq![v] + rest;
                    assert forall|i: int| 0 <= i < b.len() implies surface_ok(#[trigger] b[i]) by {
                        if i > 0 {
                            assert(b[i] == rest[i - 1]);
                        }
                    }
                }
            }
        }
    }
}

proof fn lemma_brush_ok(s: Seq<LexItem>)
    requires
        items_ok(s),
    ensures
        spec_parse_brush(s) matches Ok((b, r)) ==> brush_ok(b) && items_ok(r) && consumed_ok(s, r),
        spec_parse_brush(s) matches Err(e) ==> error_line_ok(e),
{
    lemma_consumed_trans();
    lemma_steps_ok(s, TokenView::OpenCurly);
    if let Ok(s1) = token_step(s, TokenView::OpenCurly) {
        lemma_surfaces_ok(s1);
        if let Ok((_, s2)) = spec_parse_surfaces(s1) {
            lemma_extract_ok(s2);
        }
    }
}

proof fn lemma_brushes_ok(s: Seq<LexItem>)
    requires
        items_ok(s),
    ensures
        spec_parse_brushes(s) matches Ok((b, r)) ==> brushes_ok(b) && items_ok(r) && consumed_ok(s, r),
        spec_parse_brushes(s) matches Err(e) ==> error_line_ok(e),
    decreases s.len(),
{
    lemma_consumed_trans();
    if let Ok(Some(t)) = peek(s) {
        if t.token == TokenView::OpenCurly {
            lemma_brush_ok(s);
            lemma_brush_shrinks(s);
            if let Ok((v, s1)) = spec_parse_brush(s) {
                lemma_brushes_ok(s1);
                if let Ok((rest, _)) = spec_parse_brushes(s1) {
                    let b = seq![v] + rest;
                    assert forall|i: int| 0 <= i < b.len() implies brush_ok(#[trigger] b[i]) by {
                        if i > 0 {
                            assert(b[i] == rest[i - 1]);
                        }
                    }
                }
            }
        }
    }
}

proof fn lemma_edict_ok(s: Seq<LexItem>)
    requires
        items_ok(s),
    ensures
        spec_parse_edict(s) matches Ok((e, r)) ==> edict_ok(e) && items_ok(r) && consumed_ok(s, r),
        spec_parse_edict(s) matches Err(e) ==> error_line_ok(e),
    decreases s.len(),
{
    lemma_consumed_trans();
    if let Ok(Some(t)) = peek(s) {
        if t.token is QuotedString {
            lemma_extract_ok(s);
            let s1 = s.drop_first();
            lemma_extract_ok(s1);
            if let Ok((v, s2)) = extract(s1) {
                lemma_edict_ok(s2);
                if let Ok((rest, _)) = spec_parse_edict(s2) {
                    if v is Some {
                        let e = seq![(bare_bytes(t.token), bare_bytes(v.unwrap().token))] + rest;
                        assert forall|i: int| 0 <= i < e.len() implies no_zero((#[trigger] e[i]).0)
                            && no_zero(e[i].1) by {
                            if i > 0 {
                                assert(e[i] == rest[i - 1]);
                            }
                        }
                    }
                }
            }
        }
    }
}

proof fn lemma_entity_ok(s: Seq<LexItem>)
    requires
        items_ok(s),
    ensures
        spec_parse_entity(s) matches Ok((e, r)) ==> entity_ok(e) && items_ok(r) && consumed_ok(s, r),
        spec_parse_entity(s) matches Err(e) ==> error_line_ok(e),
{
    lemma_consumed_trans();
    lemma_steps_ok(s, TokenView::OpenCurly);
    if let Ok(s1) = token_step(s, TokenView::OpenCurly) {
        lemma_edict_ok(s1);
        if let Ok((_, s2)) = spec_parse_edict(s1) {
            lemma_brushes_ok(s2);
            if let Ok((_, s3)) = spec_parse_brushes(s2) {
                lemma_steps_ok(s3, TokenView::CloseCurly);
            }
        }
    }
}

proof fn lemma_entities_ok(s: Seq<LexItem>)
    requires
        items_ok(s),
    ensures
        spec_parse_entities(s) matches Ok(es) ==> forall|i: int|
            0 <= i < es.len() ==> entity_ok(#[trigger] es[i]),
        spec_parse_entities(s) is Ok ==> forall|i: int| 0 <= i < s.len() ==> (#[trigger] s[i]) is Ok,
        spec_parse_entities(s) matches Err(e) ==> error_line_ok(e),
    decreases s.len(),
{
    lemma_consumed_trans();
    if s.len() > 0 {
        lemma_entity_ok(s);
        lemma_entity_shrinks(s);
        if let Ok((e, s1)) = spec_parse_entity(s) {
            lemma_entities_ok(s1);
            if let Ok(rest) = spec_parse_entities(s1) {
                let es = seq![e] + rest;
                assert forall|i: int| 0 <= i < es.len() implies entity_ok(#[trigger] es[i]) by {
                    if i > 0 {
                        assert(es[i] == rest[i - 1]);
                    }
                }
                let k = s.len() - s1.len();
                assert forall|i: int| 0 <= i < s.len() implies (#[trigger] s[i]) is Ok by {
                    if i >= k {
                        assert(s[i] == s1[i - k]);
                    }
                }
            }
        }
    }
}

/// A text that parses yields no error item: every item read from it is a
/// token. So a text with a zero byte, or one that ends inside a quoted
/// string, never parses.
pub proof fn law_parse_ok_items_ok(input: Seq<u8>)
    ensures
        spec_parse(input) is Ok ==> forall|i: int|
            0 <= i < lex(input).len() ==> (#[trigger] lex(input)[i]) is Ok,
{
    law_tokens_no_zero(input);
    law_item_lines(input);
    lemma_entities_ok(lex(input));
}

/// A text with a zero byte, or one that ends inside a quoted string, does
/// not parse.
pub proof fn law_bad_text_fails(input: Seq<u8>)
    requires
        (exists|i: int| 0 <= i < input.len() && input[i] == 0) || ends_in_quote(input),
    ensures
        spec_parse(input) is Err,
{
    law_error_items(input);
    law_parse_ok_items_ok(input);
}

/// A map read from text holds numbers that Rust reads as `f64`, and keys,
/// values and texture names free of zero bytes; an error met reading it
/// carries no line number or one of at least 1.
pub proof fn law_parsed_map_ok(input: Seq<u8>)
    ensures
        spec_parse(input) matches Ok(m) ==> map_ok(m),
        spec_parse(input) matches Err(e) ==> error_line_ok(e),
{
    law_tokens_no_zero(input);
    law_item_lines(input);
    lemma_entities_ok(lex(input));
}

} // verus!
