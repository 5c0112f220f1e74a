//! The orderings of display descriptions: field by field, strings by character code, absent
//! values first.
use vstd::prelude::*;

use crate::types::{LogicalDisplay, Orientation, PixelFormat, PhysicalDisplayMetadata};

verus! {

/// Three-way lexicographic comparison of character sequences by character code:
/// negative, zero or positive as `a` sorts before, equal to, or after `b`.
pub open spec fn seq_order(a: Seq<char>, b: Seq<char>) -> int
    decreases a.len(),
{
    if a.len() == 0 {
        if b.len() == 0 {
            0
        } else {
            -1
        }
    } else if b.len() == 0 {
        1
    } else if (a[0] as int) < (b[0] as int) {
        -1
    } else if (a[0] as int) > (b[0] as int) {
        1
    } else {
        seq_order(a.drop_first(), b.drop_first())
    }
}

/// Comparison of optional character sequences: absent sorts first.
pub open spec fn opt_order(a: Option<Seq<char>>, b: Option<Seq<char>>) -> int {
    match (a, b) {
        (None, None) => 0,
        (None, Some(_)) => -1,
        (Some(_), None) => 1,
        (Some(x), Some(y)) => seq_order(x, y),
    }
}

/// Comparison of physical display metadata: by name, path, manufacturer, model, then serial number.
pub open spec fn metadata_order(a: PhysicalDisplayMetadata, b: PhysicalDisplayMetadata) -> int {
    let c1 = seq_order(a.name@, b.name@);
    let c2 = seq_order(a.path@, b.path@);
    let c3 = opt_order(a.manufacturer.deep_view(), b.manufacturer.deep_view());
    let c4 = opt_order(a.model.deep_view(), b.model.deep_view());
    let c5 = opt_order(a.serial_number.deep_view(), b.serial_number.deep_view());
    if c1 != 0 {
        c1
    } else if c2 != 0 {
        c2
    } else if c3 != 0 {
        c3
    } else if c4 != 0 {
        c4
    } else {
        c5
    }
}

/// `a` sorts no later than `b`.
pub open spec fn metadata_le(a: PhysicalDisplayMetadata, b: PhysicalDisplayMetadata) -> bool {
    metadata_order(a, b) <= 0
}

pub proof fn lemma_seq_order_antisym(a: Seq<char>, b: Seq<char>)
    ensures
        seq_order(a, b) == -seq_order(b, a),
        -1 <= seq_order(a, b) <= 1,
        seq_order(a, b) == 0 <==> a == b,
    decreases a.len(),
{
    if a.len() > 0 && b.len() > 0 {
        lemma_seq_order_antisym(a.drop_first(), b.drop_first());
        if a[0] == b[0] && a.drop_first() == b.drop_first() {
            assert(a == seq![a[0]] + a.drop_first());
            assert(b == seq![b[0]] + b.drop_first());
        }
        if a == b {
            assert(a.drop_first() == b.drop_first());
        }
    } else if a.len() == 0 && b.len() == 0 {
        assert(a == b);
    }
}

pub proof fn lemma_seq_order_trans(a: Seq<char>, b: Seq<char>, c: Seq<char>)
    requires
        seq_order(a, b) <= 0,
        seq_order(b, c) <= 0,
    ensures
        seq_order(a, c) <= 0,
    decreases a.len(),
{
    if a.len() > 0 && b.len() > 0 && c.len() > 0 {
        if a[0] == b[0] && b[0] == c[0] {
            lemma_seq_order_trans(a.drop_first(), b.drop_first(), c.drop_first());
        }
    }
}

proof fn lemma_opt_order_antisym(a: Option<Seq<char>>, b: Option<Seq<char>>)
    ensures
        opt_order(a, b) == -opt_order(b, a),
        opt_order(a, b) == 0 <==> a == b,
{
    match (a, b) {
        (Some(x), Some(y)) => lemma_seq_order_antisym(x, y),
        _ => {},
    }
}

proof fn lemma_opt_order_trans(a: Option<Seq<char>>, b: Option<Seq<char>>, c: Option<Seq<char>>)
    requires
        opt_order(a, b) <= 0,
        opt_order(b, c) <= 0,
    ensures
        opt_order(a, c) <= 0,
        opt_order(a, b) == 0 && opt_order(b, c) == 0 ==> opt_order(a, c) == 0,
        opt_order(a, b) < 0 || opt_order(b, c) < 0 ==> opt_order(a, c) < 0,
{
    lemma_opt_order_antisym(a, b);
    lemma_opt_order_antisym(b, c);
    lemma_opt_order_antisym(a, c);
    match (a, b, c) {
        (Some(x), Some(y), Some(z)) => {
            lemma_seq_order_trans(x, y, z);
            lemma_seq_order_antisym(x, y);
            lemma_seq_order_antisym(y, z);
            lemma_seq_order_antisym(x, z);
        },
        _ => {},
    }
}

proof fn lemma_seq_order_trans_strict(a: Seq<char>, b: Seq<char>, c: Seq<char>)
    requires
        seq_order(a, b) <= 0,
        seq_order(b, c) <= 0,
    ensures
        seq_order(a, c) <= 0,
        seq_order(a, b) < 0 || seq_order(b, c) < 0 ==> seq_order(a, c) < 0,
{
    lemma_seq_order_trans(a, b, c);
    lemma_seq_order_antisym(a, b);
    lemma_seq_order_antisym(b, c);
    lemma_seq_order_antisym(a, c);
}

/// Metadata comparison is a total order on the metadata's text.
pub proof fn lemma_metadata_total(a: PhysicalDisplayMetadata, b: PhysicalDisplayMetadata)
    ensures
        metadata_le(a, b) || metadata_le(b, a),
        metadata_order(a, b) == -metadata_order(b, a),
{
    lemma_seq_order_antisym(a.name@, b.name@);
    lemma_seq_order_antisym(a.path@, b.path@);
    lemma_opt_order_antisym(a.manufacturer.deep_view(), b.manufacturer.deep_view());
    lemma_opt_order_antisym(a.model.deep_view(), b.model.deep_view());
    lemma_opt_order_antisym(a.serial_number.deep_view(), b.serial_number.deep_view());
}

/// Metadata comparison is transitive.
pub proof fn lemma_metadata_trans(
    a: PhysicalDisplayMetadata,
    b: PhysicalDisplayMetadata,
    c: PhysicalDisplayMetadata,
)
    requires
        metadata_le(a, b),
        metadata_le(b, c),
    ensures
        metadata_le(a, c),
{
    lemma_seq_order_antisym(a.name@, b.name@);
    lemma_seq_order_antisym(b.name@, c.name@);
    lemma_seq_order_antisym(a.path@, b.path@);
    lemma_seq_order_antisym(b.path@, c.path@);
    lemma_opt_order_antisym(a.manufacturer.deep_view(), b.manufacturer.deep_view());
    lemma_opt_order_antisym(b.manufacturer.deep_view(), c.manufacturer.deep_view());
    lemma_opt_order_antisym(a.model.deep_view(), b.model.deep_view());
    lemma_opt_order_antisym(b.model.deep_view(), c.model.deep_view());
    lemma_opt_order_antisym(a.serial_number.deep_view(), b.serial_number.deep_view());
    lemma_opt_order_antisym(b.serial_number.deep_view(), c.serial_number.deep_view());
    let (an, bn, cn) = (a.name@, b.name@, c.name@);
    let (ap, bp, cp) = (a.path@, b.path@, c.path@);
    if seq_order(an, bn) < 0 || seq_order(bn, cn) < 0 {
        if seq_order(an, bn) <= 0 && seq_order(bn, cn) <= 0 {
            lemma_seq_order_trans_strict(an, bn, cn);
        }
    } else {
        // names equal in both steps
        if seq_order(ap, bp) < 0 || seq_order(bp, cp) < 0 {
            if seq_order(ap, bp) <= 0 && seq_order(bp, cp) <= 0 {
                lemma_seq_order_trans_strict(ap, bp, cp);
            }
        } else {
            let (am, bm, cm) = (
                a.manufacturer.deep_view(),
                b.manufacturer.deep_view(),
                c.manufacturer.deep_view(),
            );
            if opt_order(am, bm) <= 0 && opt_order(bm, cm) <= 0 {
                lemma_opt_order_trans(am, bm, cm);
            }
            let (ao, bo, co) = (a.model.deep_view(), b.model.deep_view(), c.model.deep_view());
            if opt_order(ao, bo) <= 0 && opt_order(bo, co) <= 0 {
                lemma_opt_order_trans(ao, bo, co);
            }
            let (as_, bs, cs) = (
                a.serial_number.deep_view(),
                b.serial_number.deep_view(),
                c.serial_number.deep_view(),
            );
            if opt_order(as_, bs) <= 0 && opt_order(bs, cs) <= 0 {
                lemma_opt_order_trans(as_, bs, cs);
            }
        }
    }
}


// ---------------------------------------------------------------------------
// Logical displays
// ---------------------------------------------------------------------------
/// Three-way lexicographic comparison of number sequences.
pub open spec fn num_order(a: Seq<i64>, b: Seq<i64>) -> int
    decreases a.len(),
{
    if a.len() == 0 {
        if b.len() == 0 {
            0
        } else {
            -1
        }
    } else if b.len() == 0 {
        1
    } else if a[0] < b[0] {
        -1
    } else if a[0] > b[0] {
        1
    } else {
        num_order(a.drop_first(), b.drop_first())
    }
}

proof fn lemma_num_order_antisym(a: Seq<i64>, b: Seq<i64>)
    ensures
        num_order(a, b) == -num_order(b, a),
        -1 <= num_order(a, b) <= 1,
        num_order(a, b) == 0 <==> a == b,
    decreases a.len(),
{
    if a.len() > 0 && b.len() > 0 {
        lemma_num_order_antisym(a.drop_first(), b.drop_first());
        if a[0] == b[0] && a.drop_first() == b.drop_first() {
            assert(a == seq![a[0]] + a.drop_first());
            assert(b == seq![b[0]] + b.drop_first());
        }
        if a == b {
            assert(a.drop_first() == b.drop_first());
        }
    } else if a.len() == 0 && b.len() == 0 {
        assert(a == b);
    }
}

proof fn lemma_num_order_trans(a: Seq<i64>, b: Seq<i64>, c: Seq<i64>)
    requires
        num_order(a, b) <= 0,
        num_order(b, c) <= 0,
    ensures
        num_order(a, c) <= 0,
        num_order(a, b) < 0 || num_order(b, c) < 0 ==> num_order(a, c) < 0,
    decreases a.len(),
{
    lemma_num_order_antisym(a, b);
    lemma_num_order_antisym(b, c);
    lemma_num_order_antisym(a, c);
    if a.len() > 0 && b.len() > 0 && c.len() > 0 {
        if a[0] == b[0] && b[0] == c[0] {
            lemma_num_order_trans(a.drop_first(), b.drop_first(), c.drop_first());
        }
    }
}

/// The rank of a rotation, in declaration order.
pub open spec fn orientation_rank(o: Orientation) -> i64 {
    match o {
        Orientation::Landscape => 0,
        Orientation::Portrait => 1,
        Orientation::LandscapeFlipped => 2,
        Orientation::PortraitFlipped => 3,
    }
}

/// The rank of a pixel format, in declaration order.
pub open spec fn pixel_format_rank(p: PixelFormat) -> i64 {
    match p {
        PixelFormat::Bpp8 => 0,
        PixelFormat::Bpp16 => 1,
        PixelFormat::Bpp24 => 2,
        PixelFormat::Bpp32 => 3,
        PixelFormat::NonGdi => 4,
    }
}

/// An optional number as a pair: absent is `(0, 0)`, present is `(1, value)`.
pub open spec fn opt_num(o: Option<i64>) -> Seq<i64> {
    match o {
        None => seq![0i64, 0i64],
        Some(v) => seq![1i64, v],
    }
}

/// The fields of a logical display after its text, as numbers in field order: the GDI device
/// id, whether it is enabled, the rotation, width, height, pixel format and position.
pub open spec fn display_numbers(d: LogicalDisplay) -> Seq<i64> {
    let m = d.metadata;
    let s = d.state;
    opt_num(
        match m.gdi_device_id {
            Some(v) => Some(v as i64),
            None => None,
        },
    ) + seq![if s.is_enabled { 1i64 } else { 0i64 }, orientation_rank(s.orientation)] + opt_num(
        match s.width {
            Some(v) => Some(v as i64),
            None => None,
        },
    ) + opt_num(
        match s.height {
            Some(v) => Some(v as i64),
            None => None,
        },
    ) + opt_num(
        match s.pixel_format {
            Some(p) => Some(pixel_format_rank(p)),
            None => None,
        },
    ) + match s.position {
        None => seq![0i64, 0i64, 0i64],
        Some(p) => seq![1i64, p.x as i64, p.y as i64],
    }
}

/// Comparison of logical displays: by name, path, manufacturer, model, serial number, then by
/// the remaining fields in field order.
pub open spec fn display_order(a: LogicalDisplay, b: LogicalDisplay) -> int {
    let c1 = seq_order(a.metadata.name@, b.metadata.name@);
    let c2 = seq_order(a.metadata.path@, b.metadata.path@);
    let c3 = opt_order(a.metadata.manufacturer.deep_view(), b.metadata.manufacturer.deep_view());
    let c4 = opt_order(a.metadata.model.deep_view(), b.metadata.model.deep_view());
    let c5 = opt_order(a.metadata.serial_number.deep_view(), b.metadata.serial_number.deep_view());
    let c6 = num_order(display_numbers(a), display_numbers(b));
    if c1 != 0 {
        c1
    } else if c2 != 0 {
        c2
    } else if c3 != 0 {
        c3
    } else if c4 != 0 {
        c4
    } else if c5 != 0 {
        c5
    } else {
        c6
    }
}

/// `a` sorts no later than `b`.
pub open spec fn display_le(a: LogicalDisplay, b: LogicalDisplay) -> bool {
    display_order(a, b) <= 0
}

/// Display comparison is total.
pub proof fn lemma_display_total(a: LogicalDisplay, b: LogicalDisplay)
    ensures
        display_le(a, b) || display_le(b, a),
        display_order(a, b) == -display_order(b, a),
{
    lemma_seq_order_antisym(a.metadata.name@, b.metadata.name@);
    lemma_seq_order_antisym(a.metadata.path@, b.metadata.path@);
    lemma_opt_order_antisym(a.metadata.manufacturer.deep_view(), b.metadata.manufacturer.deep_view());
    lemma_opt_order_antisym(a.metadata.model.deep_view(), b.metadata.model.deep_view());
    lemma_opt_order_antisym(a.metadata.serial_number.deep_view(), b.metadata.serial_number.deep_view());
    lemma_num_order_antisym(display_numbers(a), display_numbers(b));
}

/// Display comparison is transitive.
pub proof fn lemma_display_trans(a: LogicalDisplay, b: LogicalDisplay, c: LogicalDisplay)
    requires
        display_le(a, b),
        display_le(b, c),
    ensures
        display_le(a, c),
{
    lemma_display_total(a, b);
    lemma_display_total(b, c);
    lemma_display_total(a, c);
    let (an, bn, cn) = (a.metadata.name@, b.metadata.name@, c.metadata.name@);
    let (ap, bp, cp) = (a.metadata.path@, b.metadata.path@, c.metadata.path@);
    let (am, bm, cm) = (
        a.metadata.manufacturer.deep_view(),
        b.metadata.manufacturer.deep_view(),
        c.metadata.manufacturer.deep_view(),
    );
    let (ao, bo, co) = (
        a.metadata.model.deep_view(),
        b.metadata.model.deep_view(),
        c.metadata.model.deep_view(),
    );
    let (as_, bs, cs) = (
        a.metadata.serial_number.deep_view(),
        b.metadata.serial_number.deep_view(),
        c.metadata.serial_number.deep_view(),
    );
    lemma_seq_order_antisym(an, cn);
    lemma_seq_order_antisym(ap, cp);
    lemma_opt_order_antisym(am, cm);
    lemma_opt_order_antisym(ao, co);
    lemma_opt_order_antisym(as_, cs);
    if seq_order(an, bn) <= 0 && seq_order(bn, cn) <= 0 {
        lemma_seq_order_trans_strict(an, bn, cn);
    }
    if seq_order(an, bn) == 0 && seq_order(bn, cn) == 0 {
        if seq_order(ap, bp) <= 0 && seq_order(bp, cp) <= 0 {
            lemma_seq_order_trans_strict(ap, bp, cp);
        }
        if seq_order(ap, bp) == 0 && seq_order(bp, cp) == 0 {
            if opt_order(am, bm) <= 0 && opt_order(bm, cm) <= 0 {
                lemma_opt_order_trans(am, bm, cm);
            }
            if opt_order(am, bm) == 0 && opt_order(bm, cm) == 0 {
                if opt_order(ao, bo) <= 0 && opt_order(bo, co) <= 0 {
                    lemma_opt_order_trans(ao, bo, co);
                }
                if opt_order(ao, bo) == 0 && opt_order(bo, co) == 0 {
                    if opt_order(as_, bs) <= 0 && opt_order(bs, cs) <= 0 {
                        lemma_opt_order_trans(as_, bs, cs);
                    }
                    if opt_order(as_, bs) == 0 && opt_order(bs, cs) == 0 {
                        lemma_num_order_trans(display_numbers(a), display_numbers(b), display_numbers(c));
                    }
                }
            }
        }
    }
}

fn chars_order(a: &Vec<char>, b: &Vec<char>) -> (r: i8)
    ensures
        r as int == seq_order(a@, b@),
{
    let n = a.len();
    let m = b.len();
    let mut i: usize = 0;
    assert(a@.skip(0) == a@);
    assert(b@.skip(0) == b@);
    while i < n && i < m
        invariant
            n == a@.len(),
            m == b@.len(),
            i <= n,
            i <= m,
            seq_order(a@, b@) == seq_order(a@.skip(i as int), b@.skip(i as int)),
        decreases n - i,
    {
        let x = a[i];
        let y = b[i];
        assert(a@.skip(i as int)[0] == a@[i as int]);
        assert(b@.skip(i as int)[0] == b@[i as int]);
        if x < y {
            return -1;
        }
        if x > y {
            return 1;
        }
        assert(a@.skip(i as int).drop_first() == a@.skip(i + 1));
        assert(b@.skip(i as int).drop_first() == b@.skip(i + 1));
        i = i + 1;
    }
    if i < n {
        1
    } else if i < m {
        -1
    } else {
        0
    }
}

fn string_order(a: &String, b: &String) -> (r: i8)
    ensures
        r as int == seq_order(a@, b@),
{
    let av = crate::text::chars_of(a.as_str());
    let bv = crate::text::chars_of(b.as_str());
    chars_order(&av, &bv)
}

fn opt_string_order(a: &Option<String>, b: &Option<String>) -> (r: i8)
    ensures
        r as int == opt_order(a.deep_view(), b.deep_view()),
{
    match (a, b) {
        (None, None) => 0,
        (None, Some(_)) => -1,
        (Some(_), None) => 1,
        (Some(x), Some(y)) => string_order(x, y),
    }
}

/// Compares physical display metadata.
pub fn compare_metadata(a: &PhysicalDisplayMetadata, b: &PhysicalDisplayMetadata) -> (r: i8)
    ensures
        r as int == metadata_order(*a, *b),
{
    let c = string_order(&a.name, &b.name);
    if c != 0 {
        return c;
    }
    let c = string_order(&a.path, &b.path);
    if c != 0 {
        return c;
    }
    let c = opt_string_order(&a.manufacturer, &b.manufacturer);
    if c != 0 {
        return c;
    }
    let c = opt_string_order(&a.model, &b.model);
    if c != 0 {
        return c;
    }
    opt_string_order(&a.serial_number, &b.serial_number)
}


fn push_opt_num(k: &mut Vec<i64>, o: Option<i64>)
    ensures
        final(k)@ == old(k)@ + opt_num(o),
{
    match o {
        None => {
            k.push(0);
            k.push(0);
        },
        Some(v) => {
            k.push(1);
            k.push(v);
        },
    }
    assert(final(k)@ =~= old(k)@ + opt_num(o));
}

fn rank_of_orientation(o: Orientation) -> (r: i64)
    ensures
        r == orientation_rank(o),
{
    match o {
        Orientation::Landscape => 0,
        Orientation::Portrait => 1,
        Orientation::LandscapeFlipped => 2,
        Orientation::PortraitFlipped => 3,
    }
}

fn rank_of_pixel_format(p: PixelFormat) -> (r: i64)
    ensures
        r == pixel_format_rank(p),
{
    match p {
        PixelFormat::Bpp8 => 0,
        PixelFormat::Bpp16 => 1,
        PixelFormat::Bpp24 => 2,
        PixelFormat::Bpp32 => 3,
        PixelFormat::NonGdi => 4,
    }
}

fn opt_u32_num(o: Option<u32>) -> (r: Option<i64>)
    ensures
        r == match o {
            Some(v) => Some(v as i64),
            None => None::<i64>,
        },
{
    match o {
        Some(v) => Some(v as i64),
        None => None,
    }
}

fn position_nums(k: &mut Vec<i64>, position: Option<crate::types::Point>)
    ensures
        final(k)@ == old(k)@ + match position {
            None => seq![0i64, 0i64, 0i64],
            Some(p) => seq![1i64, p.x as i64, p.y as i64],
        },
{
    match position {
        None => {
            k.push(0);
            k.push(0);
            k.push(0);
        },
        Some(p) => {
            k.push(1);
            k.push(p.x as i64);
            k.push(p.y as i64);
        },
    }
    assert(final(k)@ =~= old(k)@ + match position {
        None => seq![0i64, 0i64, 0i64],
        Some(p) => seq![1i64, p.x as i64, p.y as i64],
    });
}

fn numbers_of(d: &LogicalDisplay) -> (k: Vec<i64>)
    ensures
        k@ == display_numbers(*d),
{
    let s = d.state;
    let mut k: Vec<i64> = Vec::new();
    let g = opt_u32_num(d.metadata.gdi_device_id);
    push_opt_num(&mut k, g);
    let ghost k1 = k@;
    k.push(if s.is_enabled { 1 } else { 0 });
    k.push(rank_of_orientation(s.orientation));
    let ghost k2 = k@;
    assert(k2 =~= k1 + seq![if s.is_enabled { 1i64 } else { 0i64 }, orientation_rank(s.orientation)]);
    let w = opt_u32_num(s.width);
    push_opt_num(&mut k, w);
    let h = opt_u32_num(s.height);
    push_opt_num(&mut k, h);
    let pf = match s.pixel_format {
        Some(p) => Some(rank_of_pixel_format(p)),
        None => None,
    };
    push_opt_num(&mut k, pf);
    position_nums(&mut k, s.position);
    k
}

fn nums_order(a: &Vec<i64>, b: &Vec<i64>) -> (r: i8)
    ensures
        r as int == num_order(a@, b@),
{
    let n = a.len();
    let m = b.len();
    let mut i: usize = 0;
    assert(a@.skip(0) == a@);
    assert(b@.skip(0) == b@);
    while i < n && i < m
        invariant
            n == a@.len(),
            m == b@.len(),
            i <= n,
            i <= m,
            num_order(a@, b@) == num_order(a@.skip(i as int), b@.skip(i as int)),
        decreases n - i,
    {
        let x = a[i];
        let y = b[i];
        assert(a@.skip(i as int)[0] == a@[i as int]);
        assert(b@.skip(i as int)[0] == b@[i as int]);
        if x < y {
            return -1;
        }
        if x > y {
            return 1;
        }
        assert(a@.skip(i as int).drop_first() == a@.skip(i + 1));
        assert(b@.skip(i as int).drop_first() == b@.skip(i + 1));
        i = i + 1;
    }
    if i < n {
        1
    } else if i < m {
        -1
    } else {
        0
    }
}

/// Compares logical displays.
pub fn compare_displays(a: &LogicalDisplay, b: &LogicalDisplay) -> (r: i8)
    ensures
        r as int == display_order(*a, *b),
{
    let c = string_order(&a.metadata.name, &b.metadata.name);
    if c != 0 {
        return c;
    }
    let c = string_order(&a.metadata.path, &b.metadata.path);
    if c != 0 {
        return c;
    }
    let c = opt_string_order(&a.metadata.manufacturer, &b.metadata.manufacturer);
    if c != 0 {
        return c;
    }
    let c = opt_string_order(&a.metadata.model, &b.metadata.model);
    if c != 0 {
        return c;
    }
    let c = opt_string_order(&a.metadata.serial_number, &b.metadata.serial_number);
    if c != 0 {
        return c;
    }
    let ka = numbers_of(a);
    let kb = numbers_of(b);
    nums_order(&ka, &kb)
}

} // verus!
