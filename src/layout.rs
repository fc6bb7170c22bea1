use vstd::arithmetic::div_mod::{lemma_fundamental_div_mod, lemma_mod_multiples_basic};
use vstd::prelude::*;

verus! {

/// Storage size and alignment, in bytes, of one field's native type.
#[derive(Clone, Copy, Debug, PartialEq, Eq)]
pub struct FieldShape {
    pub size: usize,
    pub align: usize,
}

/// Where each field of a struct lives, and how large the whole struct is.
#[derive(Clone, Debug)]
pub struct LayoutInfo {
    pub total_size: usize,
    pub align: usize,
    pub field_offsets: Vec<usize>,
}

#[derive(Clone, Copy, Debug, PartialEq, Eq)]
pub enum LayoutError {
    /// The field at this position declares an alignment of zero.
    ZeroAlignment(usize),
    /// Some offset or the total size does not fit in `usize`.
    Overflow,
}

/// The smallest multiple of `a` that is at least `x`.
pub open spec fn round_up(x: int, a: int) -> int {
    if x % a == 0 {
        x
    } else {
        x + (a - x % a)
    }
}

/// Every field declares a positive alignment.
pub open spec fn shapes_valid(shapes: Seq<FieldShape>) -> bool {
    forall|i: int| 0 <= i < shapes.len() ==> #[trigger] shapes[i].align > 0
}

/// The first byte after the first `i` fields, laid out in declaration order.
pub open spec fn end_at(shapes: Seq<FieldShape>, i: int) -> int
    decreases 2 * i,
{
    if i <= 0 {
        0
    } else {
        offset_at(shapes, i - 1) + shapes[i - 1].size
    }
}

/// The offset of field `i`: the end of the previous fields, rounded up to the
/// field's alignment.
pub open spec fn offset_at(shapes: Seq<FieldShape>, i: int) -> int
    decreases 2 * i + 1,
{
    if i < 0 {
        0
    } else {
        round_up(end_at(shapes, i), shapes[i].align as int)
    }
}

/// The largest alignment among the first `i` fields (one when there are none).
pub open spec fn max_align(shapes: Seq<FieldShape>, i: int) -> int
    decreases i,
{
    if i <= 0 {
        1
    } else if max_align(shapes, i - 1) >= shapes[i - 1].align {
        max_align(shapes, i - 1)
    } else {
        shapes[i - 1].align as int
    }
}

/// The size of the whole struct: the end of its last field rounded up to the
/// struct's alignment.
pub open spec fn total_at(shapes: Seq<FieldShape>) -> int {
    round_up(end_at(shapes, shapes.len() as int), max_align(shapes, shapes.len() as int))
}

pub proof fn lemma_round_up(x: int, a: int)
    requires
        x >= 0,
        a > 0,
    ensures
        x <= round_up(x, a) < x + a,
        round_up(x, a) % a == 0,
{
    lemma_fundamental_div_mod(x, a);
    if x % a != 0 {
        assert(round_up(x, a) == a * (x / a + 1)) by (nonlinear_arith)
            requires
                x == a * (x / a) + x % a,
                round_up(x, a) == x + (a - x % a),
        ;
        lemma_mod_multiples_basic(x / a + 1, a);
    }
}

proof fn lemma_max_align_pos(shapes: Seq<FieldShape>, i: int)
    requires
        shapes_valid(shapes),
        i <= shapes.len(),
    ensures
        max_align(shapes, i) > 0,
    decreases i,
{
    if i > 0 {
        lemma_max_align_pos(shapes, i - 1);
    }
}

proof fn lemma_end_nonneg(shapes: Seq<FieldShape>, i: int)
    requires
        shapes_valid(shapes),
        0 <= i <= shapes.len(),
    ensures
        end_at(shapes, i) >= 0,
    decreases i,
{
    if i > 0 {
        lemma_end_nonneg(shapes, i - 1);
        lemma_round_up(end_at(shapes, i - 1), shapes[i - 1].align as int);
    }
}

/// Offsets and ends never decrease along the declaration order.
proof fn lemma_ends_grow(shapes: Seq<FieldShape>, i: int, j: int)
    requires
        shapes_valid(shapes),
        0 <= i <= j <= shapes.len(),
    ensures
        0 <= end_at(shapes, i) <= end_at(shapes, j),
        i < j ==> end_at(shapes, i) <= offset_at(shapes, i),
        i < j ==> offset_at(shapes, i) + shapes[i].size <= end_at(shapes, j),
    decreases j - i,
{
    lemma_end_nonneg(shapes, i);
    if i < j {
        lemma_round_up(end_at(shapes, i), shapes[i].align as int);
        lemma_ends_grow(shapes, i + 1, j);
    }
}

/// Layout correctness: for structs without explicit packing, every field
/// starts at a multiple of its own alignment and ends within the total size,
/// a later field starts no earlier than an earlier one ends (so fields follow
/// one another in declaration order without overlapping), and the total size
/// is a multiple of the struct's alignment.
pub proof fn lemma_layout_sound(shapes: Seq<FieldShape>, i: int, j: int)
    requires
        shapes_valid(shapes),
        0 <= i <= j < shapes.len(),
    ensures
        offset_at(shapes, i) % (shapes[i].align as int) == 0,
        offset_at(shapes, i) + shapes[i].size <= total_at(shapes),
        i < j ==> offset_at(shapes, i) + shapes[i].size <= offset_at(shapes, j),
        total_at(shapes) % max_align(shapes, shapes.len() as int) == 0,
{
    let n = shapes.len() as int;
    lemma_ends_grow(shapes, i, j);
    lemma_ends_grow(shapes, i, n);
    lemma_ends_grow(shapes, j, n);
    lemma_round_up(end_at(shapes, i), shapes[i].align as int);
    lemma_round_up(end_at(shapes, j), shapes[j].align as int);
    lemma_max_align_pos(shapes, n);
    lemma_round_up(end_at(shapes, n), max_align(shapes, n));
}

/// Rounds `x` up to a multiple of `a`, or `None` where that does not fit.
fn checked_round_up(x: usize, a: usize) -> (r: Option<usize>)
    requires
        a > 0,
    ensures
        match r {
            Some(v) => v == round_up(x as int, a as int),
            None => round_up(x as int, a as int) > usize::MAX,
        },
{
    let rem = x % a;
    if rem == 0 {
        Some(x)
    } else if x <= usize::MAX - (a - rem) {
        Some(x + (a - rem))
    } else {
        None
    }
}

/// Lays out fields in declaration order, each at the first offset past the
/// previous field that is a multiple of its alignment, as a native compiler
/// does for a struct with C-compatible layout.
pub fn resolve_layout(shapes: &Vec<FieldShape>) -> (r: Result<LayoutInfo, LayoutError>)
    ensures
        match r {
            Ok(info) => {
                &&& shapes_valid(shapes@)
                &&& info.total_size == total_at(shapes@)
                &&& info.align == max_align(shapes@, shapes@.len() as int)
                &&& info.field_offsets@.len() == shapes@.len()
                &&& forall|i: int|
                    0 <= i < shapes@.len() ==> #[trigger] info.field_offsets@[i] == offset_at(
                        shapes@,
                        i,
                    )
            },
            Err(LayoutError::ZeroAlignment(k)) => {
                &&& k < shapes@.len()
                &&& shapes@[k as int].align == 0
                &&& forall|i: int| 0 <= i < k ==> #[trigger] shapes@[i].align > 0
            },
            Err(LayoutError::Overflow) => shapes_valid(shapes@) && total_at(shapes@) > usize::MAX,
        },
{
    let n = shapes.len();
    let mut k: usize = 0;
    while k < n
        invariant
            n == shapes@.len(),
            k <= n,
            forall|i: int| 0 <= i < k ==> #[trigger] shapes@[i].align > 0,
        decreases n - k,
    {
        if shapes[k].align == 0 {
            return Err(LayoutError::ZeroAlignment(k));
        }
        k = k + 1;
    }
    let ghost s = shapes@;
    let mut offsets: Vec<usize> = Vec::new();
    let mut end: usize = 0;
    let mut align: usize = 1;
    let mut i: usize = 0;
    while i < n
        invariant
            n == s.len(),
            s == shapes@,
            shapes_valid(s),
            i <= n,
            offsets@.len() == i,
            forall|j: int| 0 <= j < i ==> #[trigger] offsets@[j] == offset_at(s, j),
            end == end_at(s, i as int),
            align == max_align(s, i as int),
        decreases n - i,
    {
        let f = shapes[i];
        proof {
            lemma_ends_grow(s, i as int, n as int);
            lemma_ends_grow(s, n as int, n as int);
            lemma_max_align_pos(s, n as int);
            lemma_round_up(end_at(s, n as int), max_align(s, n as int));
        }
        let off = match checked_round_up(end, f.align) {
            Some(v) => v,
            None => return Err(LayoutError::Overflow),
        };
        if off > usize::MAX - f.size {
            return Err(LayoutError::Overflow);
        }
        offsets.push(off);
        end = off + f.size;
        if align < f.align {
            align = f.align;
        }
        i = i + 1;
    }
    proof {
        lemma_max_align_pos(s, n as int);
    }
    match checked_round_up(end, align) {
        Some(total) => Ok(LayoutInfo { total_size: total, align, field_offsets: offsets }),
        None => Err(LayoutError::Overflow),
    }
}

} // verus!
