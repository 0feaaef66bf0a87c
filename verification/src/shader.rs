//! The shader library: the GLSL fragment shaders offered in the dropdown,
//! and the fixed vertex stage and header they are compiled with.
//!
//! Shader contract (desktop GL 3.3 core): write `void main()`, set
//! `fragColor`, using uniforms `u_resolution` (vec2) and `u_time` (float,
//! = beats).
use vstd::prelude::*;
use crate::canvas::{cell_index, Canvas, Rgb};

verus! {

/// Vertex shader: one full-screen triangle.
pub const VERT: &'static str = r#"#version 330 core
void main() {
    vec2 v[3] = vec2[3](vec2(-1.0, -1.0), vec2(3.0, -1.0), vec2(-1.0, 3.0));
    gl_Position = vec4(v[gl_VertexID], 0.0, 1.0);
}
"#;

/// Prepended to every user fragment shader: its output and uniforms.
pub const FRAG_HEADER: &'static str = r#"#version 330 core
out vec4 fragColor;
uniform vec2 u_resolution;
uniform float u_time;
uniform sampler2D u_feedback; // the previous frame, for MilkDrop-style feedback
uniform float u_sliders[8];   // 8 generic [0,1] controls from the layer UI
"#;

/// A starter shader, so the runner shows something immediately.
pub const EXAMPLE: &'static str = r#"void main() {
    vec2 uv = gl_FragCoord.xy / u_resolution;
    float t = u_time;
    float v = sin(uv.x * 10.0 + t)
            + sin(uv.y * 10.0 + t * 1.3)
            + sin((uv.x + uv.y) * 10.0 - t);
    vec3 col = 0.5 + 0.5 * cos(6.2831 * (v * 0.2 + vec3(0.0, 0.33, 0.67)));
    fragColor = vec4(col, 1.0);
}
"#;

/// Feedback: zoom and rotate the previous frame, decay it, and add a moving
/// spark. sliders: [0]=rotate [1]=zoom [2]=decay.
pub const FEEDBACK_EXAMPLE: &'static str = r#"void main() {
    vec2 uv = gl_FragCoord.xy / u_resolution;
    vec2 c = uv - 0.5;
    float a = (u_sliders[0] - 0.5) * 0.12;
    mat2 rot = mat2(cos(a), -sin(a), sin(a), cos(a));
    vec2 prev = rot * c * (0.95 + u_sliders[1] * 0.06) + 0.5;
    vec3 fb = texture(u_feedback, prev).rgb * (0.90 + u_sliders[2] * 0.09);
    float d = length(c - 0.3 * vec2(cos(u_time), sin(u_time * 1.3)));
    vec3 spark = smoothstep(0.06, 0.0, d) * (0.5 + 0.5 * cos(u_time + vec3(0.0, 2.0, 4.0)));
    fragColor = vec4(max(fb, spark), 1.0);
}
"#;

/// Concentric rings.
pub const RINGS: &'static str = r#"void main() {
    vec2 p = gl_FragCoord.xy / u_resolution - 0.5;
    float r = length(p) * (4.0 + u_sliders[0] * 24.0);
    float v = 0.5 + 0.5 * sin(r - u_time * (1.0 + u_sliders[1] * 5.0));
    fragColor = vec4(v * (0.4 + 0.6 * cos(u_time * 0.3 + vec3(0.0, 2.0, 4.0))), 1.0);
}
"#;

/// Mirrored kaleidoscope segments.
pub const KALEIDOSCOPE: &'static str = r#"void main() {
    vec2 p = gl_FragCoord.xy / u_resolution - 0.5;
    float seg = 3.0 + floor(u_sliders[0] * 9.0);
    float ang = atan(p.y, p.x);
    float rad = length(p);
    ang = abs(mod(ang, 6.2831 / seg) - 3.1416 / seg);
    vec2 q = vec2(cos(ang), sin(ang)) * rad;
    float v = sin(q.x * 24.0 + u_time) + sin(q.y * 24.0 - u_time);
    fragColor = vec4(0.5 + 0.5 * cos(v + vec3(0.0, 2.0, 4.0)), 1.0);
}
"#;

/// Animated Voronoi cells.
pub const VORONOI: &'static str = r#"vec2 h2(vec2 p) {
    return fract(sin(vec2(dot(p, vec2(127.1, 311.7)), dot(p, vec2(269.5, 183.3)))) * 43758.5);
}
void main() {
    vec2 uv = gl_FragCoord.xy / u_resolution * (2.0 + u_sliders[0] * 10.0);
    vec2 g = floor(uv), f = fract(uv);
    float md = 1.0;
    for (int y = -1; y <= 1; y++) for (int x = -1; x <= 1; x++) {
        vec2 o = vec2(float(x), float(y));
        vec2 p = h2(g + o);
        p = 0.5 + 0.5 * sin(u_time * (0.5 + u_sliders[1]) + 6.2831 * p);
        md = min(md, length(o + p - f));
    }
    fragColor = vec4(vec3(md) * vec3(0.4, 0.7, 1.0), 1.0);
}
"#;

/// A rotating spiral.
pub const SPIRAL: &'static str = r#"void main() {
    vec2 p = gl_FragCoord.xy / u_resolution - 0.5;
    float a = atan(p.y, p.x), r = length(p);
    float arms = 2.0 + floor(u_sliders[0] * 8.0);
    float v = sin(a * arms + r * (10.0 + u_sliders[1] * 40.0) - u_time * 2.0);
    fragColor = vec4(0.5 + 0.5 * cos(v + vec3(0.0, 2.0, 4.0)), 1.0);
}
"#;

/// Domain-warped stripes.
pub const WARP: &'static str = r#"void main() {
    vec2 uv = gl_FragCoord.xy / u_resolution;
    float t = u_time * 0.3;
    vec2 q = uv + (0.1 + 0.3 * u_sliders[0]) * vec2(sin(uv.y * 6.0 + t), cos(uv.x * 6.0 + t));
    float v = sin(q.x * 10.0 + t) + sin(q.y * 10.0 - t);
    fragColor = vec4(0.5 + 0.5 * cos(v + u_sliders[1] * 6.0 + vec3(0.0, 2.0, 4.0)), 1.0);
}
"#;

/// Scrolling starfield.
pub const STARFIELD: &'static str = r#"float h(vec2 p) { return fract(sin(dot(p, vec2(41.0, 289.0))) * 43758.5); }
void main() {
    vec2 uv = gl_FragCoord.xy / u_resolution;
    vec3 col = vec3(0.0);
    for (float i = 0.0; i < 3.0; i++) {
        vec2 sc = uv * (20.0 + i * 12.0) + vec2(0.0, u_time * (1.0 + u_sliders[0] * 5.0) * (i + 1.0));
        float s = h(floor(sc) + i * 13.0);
        col += smoothstep(0.985, 1.0, s) * (1.0 - i * 0.3);
    }
    fragColor = vec4(col, 1.0);
}
"#;

/// A named shader in the dropdown library.
pub struct Shader {
    pub name: &'static str,
    pub src: &'static str,
}

/// Shader `s` has name `name` and source `src`.
pub open spec fn pairs_up(s: Shader, name: Seq<char>, src: Seq<char>) -> bool {
    s.name@ == name && s.src@ == src
}

/// The shader library, in menu order.
pub fn shaders() -> (shaders: Vec<Shader>)
    ensures
        shaders@.len() == 8,
        pairs_up(shaders@[0], "Plasma"@, EXAMPLE@),
        pairs_up(shaders@[1], "Tunnel (feedback)"@, FEEDBACK_EXAMPLE@),
        pairs_up(shaders@[2], "Rings"@, RINGS@),
        pairs_up(shaders@[3], "Kaleidoscope"@, KALEIDOSCOPE@),
        pairs_up(shaders@[4], "Voronoi"@, VORONOI@),
        pairs_up(shaders@[5], "Spiral"@, SPIRAL@),
        pairs_up(shaders@[6], "Warp"@, WARP@),
        pairs_up(shaders@[7], "Starfield"@, STARFIELD@),
{
    let mut v: Vec<Shader> = Vec::new();
    v.push(Shader { name: "Plasma", src: EXAMPLE });
    v.push(Shader { name: "Tunnel (feedback)", src: FEEDBACK_EXAMPLE });
    v.push(Shader { name: "Rings", src: RINGS });
    v.push(Shader { name: "Kaleidoscope", src: KALEIDOSCOPE });
    v.push(Shader { name: "Voronoi", src: VORONOI });
    v.push(Shader { name: "Spiral", src: SPIRAL });
    v.push(Shader { name: "Warp", src: WARP });
    v.push(Shader { name: "Starfield", src: STARFIELD });
    v
}


/// The smaller of `a` and `b`.
pub open spec fn min_int(a: int, b: int) -> int {
    if a <= b {
        a
    } else {
        b
    }
}

/// The colour of the pixel whose RGBA quadruple starts at byte `i` of `buf`.
pub open spec fn rgb_at(buf: Seq<u8>, i: int) -> Rgb {
    [buf[i], buf[i + 1], buf[i + 2]]
}

/// Byte offset, in a `w`-wide bottom-up RGBA buffer of `h` rows, of the
/// pixel that shows at `(x, y)` counted from the top.
pub open spec fn flipped_offset(w: int, h: int, x: int, y: int) -> int {
    ((h - 1 - y) * w + x) * 4
}

/// How many bytes a `w` x `h` bottom-up RGBA buffer needs so that its top
/// `rows` rows and left `cols` columns can be read.
pub open spec fn rgba_needed(w: int, h: int, cols: int, rows: int) -> int {
    if cols <= 0 || rows <= 0 {
        0
    } else {
        flipped_offset(w, h, cols - 1, 0) + 3
    }
}

proof fn lemma_flipped_offset_bound(w: int, h: int, cols: int, rows: int, x: int, y: int)
    requires
        0 <= x < cols <= w,
        0 <= y < rows <= h,
    ensures
        0 <= flipped_offset(w, h, x, y),
        flipped_offset(w, h, x, y) + 3 <= rgba_needed(w, h, cols, rows),
{
    assert(0 <= (h - 1 - y) * w) by (nonlinear_arith)
        requires
            0 <= h - 1 - y,
            0 <= w,
    ;
    assert((h - 1 - y) * w <= (h - 1) * w) by (nonlinear_arith)
        requires
            0 <= y,
            0 <= w,
    ;
}

/// Copy a rendered `w` x `h` RGBA buffer, whose rows run bottom-up as GL
/// reads them back, into `canvas`, flipping it upright: for every `(x, y)`
/// inside both the buffer and the canvas, the canvas pixel takes the colour
/// (alpha dropped) of buffer row `h - 1 - y`; the other canvas pixels keep
/// theirs.
pub fn copy_into(buf: &[u8], w: usize, h: usize, canvas: &mut Canvas)
    requires
        old(canvas).w * old(canvas).h <= old(canvas).px@.len(),
        rgba_needed(
            w as int,
            h as int,
            min_int(w as int, old(canvas).w as int),
            min_int(h as int, old(canvas).h as int),
        ) <= buf@.len(),
    ensures
        final(canvas).w == old(canvas).w,
        final(canvas).h == old(canvas).h,
        final(canvas).px@.len() == old(canvas).px@.len(),
        forall|x: int, y: int|
            0 <= x < min_int(w as int, old(canvas).w as int) && 0 <= y < min_int(
                h as int,
                old(canvas).h as int,
            ) ==> #[trigger] final(canvas).px@[cell_index(old(canvas).w as int, x, y)] == rgb_at(
                buf@,
                flipped_offset(w as int, h as int, x, y),
            ),
        forall|i: int|
            0 <= i < old(canvas).px@.len() && !(exists|x: int, y: int|
                0 <= x < min_int(w as int, old(canvas).w as int) && 0 <= y < min_int(
                    h as int,
                    old(canvas).h as int,
                ) && i == #[trigger] cell_index(old(canvas).w as int, x, y))
                ==> #[trigger] final(canvas).px@[i] == old(canvas).px@[i],
{
    let cw = canvas.w;
    let ghost ch = canvas.h as int;
    let rows = if h < canvas.h {
        h
    } else {
        canvas.h
    };
    let cols = if w < cw {
        w
    } else {
        cw
    };
    let ghost old_px = canvas.px@;
    let ghost need = rgba_needed(w as int, h as int, cols as int, rows as int);
    let mut y: usize = 0;
    while y < rows
        invariant
            canvas.w == cw,
            canvas.h == ch,
            cw == old(canvas).w,
            rows == min_int(h as int, ch as int),
            cols == min_int(w as int, cw as int),
            cw * ch <= old_px.len(),
            need == rgba_needed(w as int, h as int, cols as int, rows as int),
            need <= buf@.len(),
            canvas.px@.len() == old_px.len(),
            y <= rows,
            forall|x: int, yy: int|
                0 <= x < cols && 0 <= yy < y ==> #[trigger] canvas.px@[cell_index(cw as int, x, yy)]
                    == rgb_at(buf@, flipped_offset(w as int, h as int, x, yy)),
            forall|i: int|
                0 <= i < old_px.len() && !(exists|x: int, yy: int|
                    0 <= x < cols && 0 <= yy < y && i == #[trigger] cell_index(cw as int, x, yy))
                    ==> #[trigger] canvas.px@[i] == old_px[i],
        decreases rows - y,
    {
        let src = h - 1 - y;
        let mut x: usize = 0;
        while x < cols
            invariant
                canvas.w == cw,
                canvas.h == ch,
                cw == old(canvas).w,
                rows == min_int(h as int, ch as int),
                cols == min_int(w as int, cw as int),
                cw * ch <= old_px.len(),
                need == rgba_needed(w as int, h as int, cols as int, rows as int),
                need <= buf@.len(),
                canvas.px@.len() == old_px.len(),
                y < rows,
                src == h - 1 - y,
                x <= cols,
                forall|xx: int, yy: int|
                    (0 <= xx < cols && 0 <= yy < y) || (0 <= xx < x && yy == y) ==> #[trigger] canvas.px@[cell_index(
                        cw as int,
                        xx,
                        yy,
                    )] == rgb_at(buf@, flipped_offset(w as int, h as int, xx, yy)),
                forall|i: int|
                    0 <= i < old_px.len() && !(exists|xx: int, yy: int|
                        ((0 <= xx < cols && 0 <= yy < y) || (0 <= xx < x && yy == y)) && i
                            == #[trigger] cell_index(cw as int, xx, yy)) ==> #[trigger] canvas.px@[i]
                        == old_px[i],
            decreases cols - x,
        {
            proof {
                lemma_flipped_offset_bound(w as int, h as int, cols as int, rows as int, x as int, y as int);
                assert(0 <= src * w) by (nonlinear_arith)
                    requires
                        0 <= src,
                        0 <= w,
                ;
                assert(0 <= y * cw) by (nonlinear_arith)
                    requires
                        0 <= y,
                        0 <= cw,
                ;
                assert(y * cw + x < cw * ch) by (nonlinear_arith)
                    requires
                        x < cols <= cw,
                        y < rows <= ch,
                ;
            }
            assert(src * w + x == (h - 1 - y) * w + x);
            assert((src * w + x) * 4 == flipped_offset(w as int, h as int, x as int, y as int));
            assert(buf@.len() == buf.len());
            let i = (src * w + x) * 4;
            let c: Rgb = [buf[i], buf[i + 1], buf[i + 2]];
            let ghost before = canvas.px@;
            canvas.set(x, y, c);
            proof {
                let k = cell_index(cw as int, x as int, y as int);
                assert forall|xx: int, yy: int|
                    (0 <= xx < cols && 0 <= yy < y) || (0 <= xx < x + 1 && yy == y) implies #[trigger] canvas.px@[cell_index(
                        cw as int,
                        xx,
                        yy,
                    )] == rgb_at(buf@, flipped_offset(w as int, h as int, xx, yy)) by {
                    if xx == x && yy == y {
                        assert(c == rgb_at(buf@, flipped_offset(w as int, h as int, xx, yy)));
                    } else {
                        assert(cell_index(cw as int, xx, yy) != k) by (nonlinear_arith)
                            requires
                                (0 <= xx < cols && 0 <= yy < y) || (0 <= xx < x && yy == y),
                                cols <= cw,
                                k == y * cw + x,
                                x < cols,
                        ;
                        assert(0 <= cell_index(cw as int, xx, yy) < cw * ch) by (nonlinear_arith)
                            requires
                                0 <= xx < cols <= cw,
                                0 <= yy <= y < rows <= ch,
                        ;
                        assert(before[cell_index(cw as int, xx, yy)] == rgb_at(
                            buf@,
                            flipped_offset(w as int, h as int, xx, yy),
                        ));
                    }
                }
                assert forall|ii: int|
                    0 <= ii < old_px.len() && !(exists|xx: int, yy: int|
                        ((0 <= xx < cols && 0 <= yy < y) || (0 <= xx < x + 1 && yy == y)) && ii
                            == #[trigger] cell_index(cw as int, xx, yy)) implies #[trigger] canvas.px@[ii]
                    == old_px[ii] by {
                    assert(ii != k);
                    if exists|xx: int, yy: int|
                        ((0 <= xx < cols && 0 <= yy < y) || (0 <= xx < x && yy == y)) && ii
                            == #[trigger] cell_index(cw as int, xx, yy) {
                        let (xx, yy) = choose|xx: int, yy: int|
                            ((0 <= xx < cols && 0 <= yy < y) || (0 <= xx < x && yy == y)) && ii
                                == #[trigger] cell_index(cw as int, xx, yy);
                        assert(((0 <= xx < cols && 0 <= yy < y) || (0 <= xx < x + 1 && yy == y))
                            && ii == cell_index(cw as int, xx, yy));
                    }
                }
            }
            x = x + 1;
        }
        proof {
            assert forall|i: int|
                0 <= i < old_px.len() && !(exists|xx: int, yy: int|
                    0 <= xx < cols && 0 <= yy < y + 1 && i == #[trigger] cell_index(cw as int, xx, yy))
                    implies #[trigger] canvas.px@[i] == old_px[i] by {
                if exists|xx: int, yy: int|
                    ((0 <= xx < cols && 0 <= yy < y) || (0 <= xx < x && yy == y)) && i
                        == #[trigger] cell_index(cw as int, xx, yy) {
                    let (xx, yy) = choose|xx: int, yy: int|
                        ((0 <= xx < cols && 0 <= yy < y) || (0 <= xx < x && yy == y)) && i
                            == #[trigger] cell_index(cw as int, xx, yy);
                    assert(0 <= xx < cols && 0 <= yy < y + 1 && i == cell_index(cw as int, xx, yy));
                }
            }
        }
        y = y + 1;
    }
}

} // verus!
