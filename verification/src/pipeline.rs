//! The GStreamer pipeline that the vision node opens for a CSI camera.
use vstd::prelude::*;
use vstd::string::StringExecFns;
use crate::decimal::{
    decimal, is_digit, lemma_numeral_unique, lemma_numerals_of_decimal, lemma_numerals_skip_text,
    numerals, push_decimal,
};

verus! {

/// The pipeline description: an `nvarguscamerasrc` for the given sensor at the
/// capture size and frame rate, flipped by `nvvidconv` and scaled to the display
/// size, converted to BGR and handed to an `appsink`.
pub open spec fn pipeline_text(
    sensor_id: u32,
    capture_width: u32,
    capture_height: u32,
    display_width: u32,
    display_height: u32,
    framerate: u32,
    flip_method: u32,
) -> Seq<char> {
    "nvarguscamerasrc sensor-id="@
        + decimal(sensor_id as nat)
        + " ! video/x-raw(memory:NVMM), width=(int)"@
        + decimal(capture_width as nat)
        + ", height=(int)"@
        + decimal(capture_height as nat)
        + ", framerate=(fraction)"@
        + decimal(framerate as nat)
        + "/1 ! nvvidconv flip-method="@
        + decimal(flip_method as nat)
        + " ! video/x-raw, width=(int)"@
        + decimal(display_width as nat)
        + ", height=(int)"@
        + decimal(display_height as nat)
        + ", format=(string)BGRx ! videoconvert ! video/x-raw, format=(string)BGR ! appsink"@
}

/// Builds the GStreamer pipeline description for a CSI camera.
pub fn gstreamer_pipeline(
    sensor_id: u32,
    capture_width: u32,
    capture_height: u32,
    display_width: u32,
    display_height: u32,
    framerate: u32,
    flip_method: u32,
) -> (s: String)
    ensures
        s@ == pipeline_text(
            sensor_id,
            capture_width,
            capture_height,
            display_width,
            display_height,
            framerate,
            flip_method,
        ),
{
    let mut s = String::new();
    s.append("nvarguscamerasrc sensor-id=");
    push_decimal(&mut s, sensor_id);
    s.append(" ! video/x-raw(memory:NVMM), width=(int)");
    push_decimal(&mut s, capture_width);
    s.append(", height=(int)");
    push_decimal(&mut s, capture_height);
    s.append(", framerate=(fraction)");
    push_decimal(&mut s, framerate);
    s.append("/1 ! nvvidconv flip-method=");
    push_decimal(&mut s, flip_method);
    s.append(" ! video/x-raw, width=(int)");
    push_decimal(&mut s, display_width);
    s.append(", height=(int)");
    push_decimal(&mut s, display_height);
    s.append(", format=(string)BGRx ! videoconvert ! video/x-raw, format=(string)BGR ! appsink");
    assert(s@ =~= pipeline_text(
        sensor_id,
        capture_width,
        capture_height,
        display_width,
        display_height,
        framerate,
        flip_method,
    ));
    s
}

/// `sep`, then the numeral of `n`, then `rest`.
spec fn numeral_after(sep: Seq<char>, n: nat, rest: Seq<char>) -> Seq<char> {
    sep + (decimal(n) + rest)
}

proof fn lemma_peel(sep: Seq<char>, a: nat, b: nat, ra: Seq<char>, rb: Seq<char>)
    requires
        numeral_after(sep, a, ra) == numeral_after(sep, b, rb),
        ra.len() > 0,
        rb.len() > 0,
        !is_digit(ra[0]),
        !is_digit(rb[0]),
    ensures
        a == b,
        ra == rb,
{
    assert(decimal(a) + ra =~= numeral_after(sep, a, ra).skip(sep.len() as int));
    assert(decimal(b) + rb =~= numeral_after(sep, b, rb).skip(sep.len() as int));
    lemma_numeral_unique(a, b, ra, rb);
}

/// The pipeline text as separators and numerals, each piece followed by all
/// that comes after it.
spec fn pipeline_pieces(
    sensor_id: u32,
    capture_width: u32,
    capture_height: u32,
    display_width: u32,
    display_height: u32,
    framerate: u32,
    flip_method: u32,
) -> Seq<char> {
    numeral_after("nvarguscamerasrc sensor-id="@, sensor_id as nat,
    numeral_after(" ! video/x-raw(memory:NVMM), width=(int)"@, capture_width as nat,
    numeral_after(", height=(int)"@, capture_height as nat,
    numeral_after(", framerate=(fraction)"@, framerate as nat,
    numeral_after("/1 ! nvvidconv flip-method="@, flip_method as nat,
    numeral_after(" ! video/x-raw, width=(int)"@, display_width as nat,
    numeral_after(", height=(int)"@, display_height as nat,
    ", format=(string)BGRx ! videoconvert ! video/x-raw, format=(string)BGR ! appsink"@)))))))
}

proof fn lemma_concat_assoc(a: Seq<char>, b: Seq<char>, c: Seq<char>)
    ensures
        (a + b) + c == a + (b + c),
{
    assert((a + b) + c =~= a + (b + c));
}

// Reassociates the concatenation one piece at a time, from the right.
proof fn lemma_pipeline_pieces(
    sensor_id: u32,
    capture_width: u32,
    capture_height: u32,
    display_width: u32,
    display_height: u32,
    framerate: u32,
    flip_method: u32,
)
    ensures
        pipeline_text(sensor_id, capture_width, capture_height, display_width, display_height, framerate, flip_method)
            == pipeline_pieces(sensor_id, capture_width, capture_height, display_width, display_height, framerate, flip_method),
{
    let q0 = "nvarguscamerasrc sensor-id="@;
    let q1 = decimal(sensor_id as nat);
    let q2 = " ! video/x-raw(memory:NVMM), width=(int)"@;
    let q3 = decimal(capture_width as nat);
    let q4 = ", height=(int)"@;
    let q5 = decimal(capture_height as nat);
    let q6 = ", framerate=(fraction)"@;
    let q7 = decimal(framerate as nat);
    let q8 = "/1 ! nvvidconv flip-method="@;
    let q9 = decimal(flip_method as nat);
    let q10 = " ! video/x-raw, width=(int)"@;
    let q11 = decimal(display_width as nat);
    let q12 = ", height=(int)"@;
    let q13 = decimal(display_height as nat);
    let q14 = ", format=(string)BGRx ! videoconvert ! video/x-raw, format=(string)BGR ! appsink"@;
    let x0 = q0;
    let x1 = x0 + q1;
    let x2 = x1 + q2;
    let x3 = x2 + q3;
    let x4 = x3 + q4;
    let x5 = x4 + q5;
    let x6 = x5 + q6;
    let x7 = x6 + q7;
    let x8 = x7 + q8;
    let x9 = x8 + q9;
    let x10 = x9 + q10;
    let x11 = x10 + q11;
    let x12 = x11 + q12;
    let x13 = x12 + q13;
    let x14 = x13 + q14;
    let r14 = q14;
    let r13 = q13 + r14;
    let r12 = q12 + r13;
    let r11 = q11 + r12;
    let r10 = q10 + r11;
    let r9 = q9 + r10;
    let r8 = q8 + r9;
    let r7 = q7 + r8;
    let r6 = q6 + r7;
    let r5 = q5 + r6;
    let r4 = q4 + r5;
    let r3 = q3 + r4;
    let r2 = q2 + r3;
    let r1 = q1 + r2;
    let r0 = q0 + r1;
    lemma_concat_assoc(x12, q13, r14);
    assert(x12 + r13 == x14);
    lemma_concat_assoc(x11, q12, r13);
    assert(x11 + r12 == x14);
    lemma_concat_assoc(x10, q11, r12);
    assert(x10 + r11 == x14);
    lemma_concat_assoc(x9, q10, r11);
    assert(x9 + r10 == x14);
    lemma_concat_assoc(x8, q9, r10);
    assert(x8 + r9 == x14);
    lemma_concat_assoc(x7, q8, r9);
    assert(x7 + r8 == x14);
    lemma_concat_assoc(x6, q7, r8);
    assert(x6 + r7 == x14);
    lemma_concat_assoc(x5, q6, r7);
    assert(x5 + r6 == x14);
    lemma_concat_assoc(x4, q5, r6);
    assert(x4 + r5 == x14);
    lemma_concat_assoc(x3, q4, r5);
    assert(x3 + r4 == x14);
    lemma_concat_assoc(x2, q3, r4);
    assert(x2 + r3 == x14);
    lemma_concat_assoc(x1, q2, r3);
    assert(x1 + r2 == x14);
    lemma_concat_assoc(x0, q1, r2);
    assert(x0 + r1 == x14);
    assert(r0 == pipeline_pieces(sensor_id, capture_width, capture_height, display_width, display_height, framerate, flip_method));
}

/// The pipeline text determines its arguments: its seven numerals, in the
/// order sensor, capture width and height, frame rate, flip method, display
/// width and height, are each followed by a separator that begins with a
/// non-digit, so they parse back, and different arguments give different
/// texts.
pub proof fn lemma_pipeline_text_injective(
    sensor_id: u32,
    capture_width: u32,
    capture_height: u32,
    display_width: u32,
    display_height: u32,
    framerate: u32,
    flip_method: u32,
    sensor_id2: u32,
    capture_width2: u32,
    capture_height2: u32,
    display_width2: u32,
    display_height2: u32,
    framerate2: u32,
    flip_method2: u32,
)
    requires
        pipeline_text(sensor_id, capture_width, capture_height, display_width, display_height, framerate, flip_method)
            == pipeline_text(sensor_id2, capture_width2, capture_height2, display_width2, display_height2, framerate2, flip_method2),
    ensures
        sensor_id == sensor_id2,
        capture_width == capture_width2,
        capture_height == capture_height2,
        display_width == display_width2,
        display_height == display_height2,
        framerate == framerate2,
        flip_method == flip_method2,
{
    reveal_strlit("nvarguscamerasrc sensor-id=");
    reveal_strlit(" ! video/x-raw(memory:NVMM), width=(int)");
    reveal_strlit(", height=(int)");
    reveal_strlit(", framerate=(fraction)");
    reveal_strlit("/1 ! nvvidconv flip-method=");
    reveal_strlit(" ! video/x-raw, width=(int)");
    reveal_strlit(", height=(int)");
    reveal_strlit(", format=(string)BGRx ! videoconvert ! video/x-raw, format=(string)BGR ! appsink");
    lemma_pipeline_pieces(sensor_id, capture_width, capture_height, display_width, display_height, framerate, flip_method);
    lemma_pipeline_pieces(sensor_id2, capture_width2, capture_height2, display_width2, display_height2, framerate2, flip_method2);
    let p1 = " ! video/x-raw(memory:NVMM), width=(int)"@;
    let p2 = ", height=(int)"@;
    let p3 = ", framerate=(fraction)"@;
    let p4 = "/1 ! nvvidconv flip-method="@;
    let p5 = " ! video/x-raw, width=(int)"@;
    let p6 = ", height=(int)"@;
    let p7 = ", format=(string)BGRx ! videoconvert ! video/x-raw, format=(string)BGR ! appsink"@;
    let a6 = numeral_after(p6, display_height as nat, p7);
    let b6 = numeral_after(p6, display_height2 as nat, p7);
    let a5 = numeral_after(p5, display_width as nat, a6);
    let b5 = numeral_after(p5, display_width2 as nat, b6);
    let a4 = numeral_after(p4, flip_method as nat, a5);
    let b4 = numeral_after(p4, flip_method2 as nat, b5);
    let a3 = numeral_after(p3, framerate as nat, a4);
    let b3 = numeral_after(p3, framerate2 as nat, b4);
    let a2 = numeral_after(p2, capture_height as nat, a3);
    let b2 = numeral_after(p2, capture_height2 as nat, b3);
    let a1 = numeral_after(p1, capture_width as nat, a2);
    let b1 = numeral_after(p1, capture_width2 as nat, b2);
    assert(a1[0] == p1[0] && b1[0] == p1[0]);
    lemma_peel("nvarguscamerasrc sensor-id="@, sensor_id as nat, sensor_id2 as nat, a1, b1);
    assert(a2[0] == p2[0] && b2[0] == p2[0]);
    lemma_peel(p1, capture_width as nat, capture_width2 as nat, a2, b2);
    assert(a3[0] == p3[0] && b3[0] == p3[0]);
    lemma_peel(p2, capture_height as nat, capture_height2 as nat, a3, b3);
    assert(a4[0] == p4[0] && b4[0] == p4[0]);
    lemma_peel(p3, framerate as nat, framerate2 as nat, a4, b4);
    assert(a5[0] == p5[0] && b5[0] == p5[0]);
    lemma_peel(p4, flip_method as nat, flip_method2 as nat, a5, b5);
    assert(a6[0] == p6[0] && b6[0] == p6[0]);
    lemma_peel(p5, display_width as nat, display_width2 as nat, a6, b6);
    lemma_peel(p6, display_height as nat, display_height2 as nat, p7, p7);
}

proof fn lemma_digit_free(text: Seq<char>)
    requires
        forall|i: int| 0 <= i < text.len() ==> #[trigger] text[i] != '0' && text[i] != '1' && text[i] != '2'
            && text[i] != '3' && text[i] != '4' && text[i] != '5' && text[i] != '6' && text[i] != '7'
            && text[i] != '8' && text[i] != '9',
    ensures
        forall|i: int| 0 <= i < text.len() ==> !is_digit(#[trigger] text[i]),
{
}

/// The numbers written in the pipeline text, in order, are the sensor id,
/// the capture width and height, the frame rate, the 1 of its denominator,
/// the flip method, and the display width and height.
pub proof fn lemma_pipeline_numerals(
    sensor_id: u32,
    capture_width: u32,
    capture_height: u32,
    display_width: u32,
    display_height: u32,
    framerate: u32,
    flip_method: u32,
)
    ensures
        numerals(pipeline_text(sensor_id, capture_width, capture_height, display_width, display_height, framerate, flip_method))
            == seq![
                sensor_id as nat,
                capture_width as nat,
                capture_height as nat,
                framerate as nat,
                1nat,
                flip_method as nat,
                display_width as nat,
                display_height as nat,
            ],
{
    reveal_strlit("nvarguscamerasrc sensor-id=");
    reveal_strlit(" ! video/x-raw(memory:NVMM), width=(int)");
    reveal_strlit(", height=(int)");
    reveal_strlit(", framerate=(fraction)");
    reveal_strlit("/1 ! nvvidconv flip-method=");
    reveal_strlit(" ! video/x-raw, width=(int)");
    reveal_strlit(", height=(int)");
    reveal_strlit(", format=(string)BGRx ! videoconvert ! video/x-raw, format=(string)BGR ! appsink");
    reveal_strlit(" ! nvvidconv flip-method=");
    lemma_pipeline_pieces(sensor_id, capture_width, capture_height, display_width, display_height, framerate, flip_method);
    let p0 = "nvarguscamerasrc sensor-id="@;
    let p1 = " ! video/x-raw(memory:NVMM), width=(int)"@;
    let p2 = ", height=(int)"@;
    let p3 = ", framerate=(fraction)"@;
    let p4 = "/1 ! nvvidconv flip-method="@;
    let t4 = " ! nvvidconv flip-method="@;
    let p5 = " ! video/x-raw, width=(int)"@;
    let p6 = ", height=(int)"@;
    let p7 = ", format=(string)BGRx ! videoconvert ! video/x-raw, format=(string)BGR ! appsink"@;
    lemma_digit_free(p0);
    lemma_digit_free(p1);
    lemma_digit_free(p2);
    lemma_digit_free(p3);
    lemma_digit_free(t4);
    lemma_digit_free(p5);
    lemma_digit_free(p6);
    lemma_digit_free(p7);
    lemma_digit_free(seq!['/']);
    let empty = Seq::<char>::empty();
    lemma_numerals_skip_text(p7, empty);
    assert(p7 + empty =~= p7);
    assert(numerals(empty) =~= Seq::<nat>::empty());
    // Each numeral is followed by a separator that begins with a non-digit.
    lemma_numerals_of_decimal(display_height as nat, p7);
    let a6 = numeral_after(p6, display_height as nat, p7);
    lemma_numerals_skip_text(p6, decimal(display_height as nat) + p7);
    lemma_numerals_of_decimal(display_width as nat, a6);
    let a5 = numeral_after(p5, display_width as nat, a6);
    lemma_numerals_skip_text(p5, decimal(display_width as nat) + a6);
    lemma_numerals_of_decimal(flip_method as nat, a5);
    let x4 = decimal(flip_method as nat) + a5;
    let a4 = numeral_after(p4, flip_method as nat, a5);
    // The separator "/1 ! ..." carries the numeral 1 itself.
    assert(decimal(1) =~= seq!['1']);
    assert(a4 =~= seq!['/'] + (decimal(1) + (t4 + x4)));
    lemma_numerals_skip_text(t4, x4);
    lemma_numerals_of_decimal(1, t4 + x4);
    lemma_numerals_skip_text(seq!['/'], decimal(1) + (t4 + x4));
    lemma_numerals_of_decimal(framerate as nat, a4);
    let a3 = numeral_after(p3, framerate as nat, a4);
    lemma_numerals_skip_text(p3, decimal(framerate as nat) + a4);
    lemma_numerals_of_decimal(capture_height as nat, a3);
    let a2 = numeral_after(p2, capture_height as nat, a3);
    lemma_numerals_skip_text(p2, decimal(capture_height as nat) + a3);
    lemma_numerals_of_decimal(capture_width as nat, a2);
    let a1 = numeral_after(p1, capture_width as nat, a2);
    lemma_numerals_skip_text(p1, decimal(capture_width as nat) + a2);
    lemma_numerals_of_decimal(sensor_id as nat, a1);
    lemma_numerals_skip_text(p0, decimal(sensor_id as nat) + a1);
    assert(numerals(pipeline_text(sensor_id, capture_width, capture_height, display_width, display_height, framerate, flip_method))
        =~= seq![
            sensor_id as nat,
            capture_width as nat,
            capture_height as nat,
            framerate as nat,
            1nat,
            flip_method as nat,
            display_width as nat,
            display_height as nat,
        ]);
}

} // verus!
