//! Connector glyphs: the per-column tokens the renderer stacks in front
//! of each line, each padded to the width of the parent label above it,
//! and the decimal form of identifier labels.

use vstd::math::abs;
use vstd::prelude::*;
use vstd::string::StringExecFns;

verus! {

/// One column of tree-branch art.  The payload is the display width of
/// the enclosing parent label; the glyph pads itself to stay aligned
/// beneath that label.
#[derive(Debug, Clone, Copy, PartialEq, Eq, Structural)]
pub enum LvlChar {
    /// Blank column under a finished branch.
    Space(u32),
    /// Vertical continuation of a still-open branch.
    SolidBar(u32),
    /// Corner for the last child of a node.
    SolidAngle(u32),
    /// Corner for a last child whose node is absent from the store.
    SolidDashAngle(u32),
    /// Tee for a child with further siblings below.
    SolidCross(u32),
    /// Tee for an absent child with further siblings below.
    SolidDashCross(u32),
    /// Dashed vertical bar: an elision marker column, or the column that
    /// stands for a detached sub-tree's external parent.
    DashBar(u32),
    /// Renders as nothing.
    Empty,
}

/// `s` repeated `n` times.
pub open spec fn repeat_chars(s: Seq<char>, n: nat) -> Seq<char>
    decreases n,
{
    if n == 0 {
        Seq::empty()
    } else {
        s + repeat_chars(s, (n - 1) as nat)
    }
}

/// The padding that a solid glyph adds beside a parent label of width
/// `len`: one less than the label width, clamped at zero.
pub open spec fn spec_pad(delta: int, len: int) -> int {
    if abs(delta) >= len {
        0
    } else {
        len + delta
    }
}

/// What one glyph prints.
pub open spec fn glyph_chars(g: LvlChar) -> Seq<char> {
    match g {
        LvlChar::Space(w) => "    "@ + repeat_chars(" "@, spec_pad(-1, w as int) as nat),
        LvlChar::SolidBar(w) => " │  "@ + repeat_chars(" "@, spec_pad(-1, w as int) as nat),
        LvlChar::SolidAngle(w) => " └──"@ + repeat_chars("─"@, spec_pad(-1, w as int) as nat),
        LvlChar::SolidDashAngle(w) => " └╌╌╌╌╌╌"@ + repeat_chars(
            "╌"@,
            spec_pad(3, w as int) as nat,
        ),
        LvlChar::SolidCross(w) => " ├──"@ + repeat_chars("─"@, spec_pad(-1, w as int) as nat),
        LvlChar::SolidDashCross(w) => " ├╌╌╌╌╌╌"@ + repeat_chars(
            "╌"@,
            spec_pad(3, w as int) as nat,
        ),
        LvlChar::DashBar(w) => " ╎  "@ + repeat_chars(" "@, spec_pad(-1, w as int) as nat),
        LvlChar::Empty => Seq::empty(),
    }
}

/// Appends `piece` to `out` exactly `count` times.
fn append_repeat(out: &mut String, piece: &str, count: usize)
    ensures
        final(out)@ == old(out)@ + repeat_chars(piece@, count as nat),
{
    let mut i: usize = 0;
    while i < count
        invariant
            i <= count,
            out@ == old(out)@ + repeat_chars(piece@, i as nat),
        decreases count - i,
    {
        proof {
            lemma_repeat_chars_snoc(piece@, (i + 1) as nat);
        }
        out.append(piece);
        i = i + 1;
    }
}

/// Repeating one more time appends at the end as well as at the front.
proof fn lemma_repeat_chars_snoc(s: Seq<char>, n: nat)
    requires
        n > 0,
    ensures
        repeat_chars(s, n) == repeat_chars(s, (n - 1) as nat) + s,
    decreases n,
{
    if n == 1 {
        assert(repeat_chars(s, 1) == s + repeat_chars(s, 0));
        assert(s + Seq::<char>::empty() =~= s);
        assert(Seq::<char>::empty() + s =~= s);
    } else {
        lemma_repeat_chars_snoc(s, (n - 1) as nat);
        assert(repeat_chars(s, n) == s + repeat_chars(s, (n - 1) as nat));
        assert(s + (repeat_chars(s, (n - 2) as nat) + s) =~= (s + repeat_chars(
            s,
            (n - 2) as nat,
        )) + s);
    }
}

impl LvlChar {
    /// The padded width beside a label of width `len`, shifted by
    /// `delta` and clamped at zero rather than going negative.  The
    /// two bounds are the machine's: the magnitude of `delta` must be
    /// representable, and the padded width must fit an allocation.
    pub(crate) fn real_len(delta: i32, len: u32) -> (r: usize)
        requires
            delta != i32::MIN,
            len as int + delta as int <= usize::MAX as int,
        ensures
            r as int == spec_pad(delta as int, len as int),
    {
        let mag: u32 = if delta < 0 {
            (-delta) as u32
        } else {
            delta as u32
        };
        if mag >= len {
            return 0;
        }
        if delta < 0 {
            (len - mag) as usize
        } else {
            len as usize + delta as usize
        }
    }

    /// What this glyph prints.  The label width must leave room for
    /// the widest shift a glyph adds, so the padded width fits an
    /// allocation.
    pub(crate) fn render(&self) -> (r: String)
        requires
            glyph_width(*self) as int + 3 <= usize::MAX as int,
        ensures
            r@ == glyph_chars(*self),
    {
        match self {
            LvlChar::Space(w) => {
                let mut s = String::from_str("    ");
                append_repeat(&mut s, " ", LvlChar::real_len(-1, *w));
                s
            },
            LvlChar::SolidBar(w) => {
                let mut s = String::from_str(" │  ");
                append_repeat(&mut s, " ", LvlChar::real_len(-1, *w));
                s
            },
            LvlChar::SolidAngle(w) => {
                let mut s = String::from_str(" └──");
                append_repeat(&mut s, "─", LvlChar::real_len(-1, *w));
                s
            },
            LvlChar::SolidDashAngle(w) => {
                let mut s = String::from_str(" └╌╌╌╌╌╌");
                append_repeat(&mut s, "╌", LvlChar::real_len(3, *w));
                s
            },
            LvlChar::SolidCross(w) => {
                let mut s = String::from_str(" ├──");
                append_repeat(&mut s, "─", LvlChar::real_len(-1, *w));
                s
            },
            LvlChar::SolidDashCross(w) => {
                let mut s = String::from_str(" ├╌╌╌╌╌╌");
                append_repeat(&mut s, "╌", LvlChar::real_len(3, *w));
                s
            },
            LvlChar::DashBar(w) => {
                let mut s = String::from_str(" ╎  ");
                append_repeat(&mut s, " ", LvlChar::real_len(-1, *w));
                s
            },
            LvlChar::Empty => String::new(),
        }
    }
}

/// The label width a glyph was built with.
pub open spec fn glyph_width(g: LvlChar) -> u32 {
    match g {
        LvlChar::Space(w) => w,
        LvlChar::SolidBar(w) => w,
        LvlChar::SolidAngle(w) => w,
        LvlChar::SolidDashAngle(w) => w,
        LvlChar::SolidCross(w) => w,
        LvlChar::SolidDashCross(w) => w,
        LvlChar::DashBar(w) => w,
        LvlChar::Empty => 0,
    }
}

/// One decimal digit as printed.
pub open spec fn digit_chars(d: nat) -> Seq<char> {
    if d == 0 {
        "0"@
    } else if d == 1 {
        "1"@
    } else if d == 2 {
        "2"@
    } else if d == 3 {
        "3"@
    } else if d == 4 {
        "4"@
    } else if d == 5 {
        "5"@
    } else if d == 6 {
        "6"@
    } else if d == 7 {
        "7"@
    } else if d == 8 {
        "8"@
    } else {
        "9"@
    }
}

/// The decimal form of `n`, most significant digit first.
pub open spec fn decimal_chars(n: nat) -> Seq<char>
    decreases n,
{
    if n < 10 {
        digit_chars(n)
    } else {
        decimal_chars(n / 10) + digit_chars(n % 10)
    }
}

/// One decimal digit as printed.
fn digit_str(d: u64) -> (r: String)
    requires
        d < 10,
    ensures
        r@ == digit_chars(d as nat),
{
    match d {
        0 => String::from_str("0"),
        1 => String::from_str("1"),
        2 => String::from_str("2"),
        3 => String::from_str("3"),
        4 => String::from_str("4"),
        5 => String::from_str("5"),
        6 => String::from_str("6"),
        7 => String::from_str("7"),
        8 => String::from_str("8"),
        _ => String::from_str("9"),
    }
}

/// The decimal form of `n`, most significant digit first.
pub fn u64_str(n: u64) -> (r: String)
    ensures
        r@ == decimal_chars(n as nat),
    decreases n,
{
    if n < 10 {
        digit_str(n)
    } else {
        let mut s = u64_str(n / 10);
        let tail = digit_str(n % 10);
        s.append(tail.as_str());
        s
    }
}

/// Every printed digit is an ASCII digit, and at least one is printed.
pub proof fn lemma_decimal_chars_ascii_digits(n: nat)
    ensures
        decimal_chars(n).len() >= 1,
        forall|i: int|
            0 <= i < decimal_chars(n).len() ==> '0' <= #[trigger] decimal_chars(n)[i] <= '9',
    decreases n,
{
    reveal_strlit("0");
    reveal_strlit("1");
    reveal_strlit("2");
    reveal_strlit("3");
    reveal_strlit("4");
    reveal_strlit("5");
    reveal_strlit("6");
    reveal_strlit("7");
    reveal_strlit("8");
    reveal_strlit("9");
    if n >= 10 {
        lemma_decimal_chars_ascii_digits(n / 10);
    }
}

/// Ten to the `k`th power.
pub open spec fn pow10(k: nat) -> nat
    decreases k,
{
    if k == 0 {
        1
    } else {
        10 * pow10((k - 1) as nat)
    }
}

/// A number below ten to the `k` prints at most `k` digits.
proof fn lemma_decimal_chars_len_le(n: nat, k: nat)
    requires
        k >= 1,
        n < pow10(k),
    ensures
        decimal_chars(n).len() <= k,
    decreases k,
{
    reveal_strlit("0");
    reveal_strlit("1");
    reveal_strlit("2");
    reveal_strlit("3");
    reveal_strlit("4");
    reveal_strlit("5");
    reveal_strlit("6");
    reveal_strlit("7");
    reveal_strlit("8");
    reveal_strlit("9");
    if n >= 10 {
        assert(k >= 2) by {
            reveal_with_fuel(pow10, 2);
            if k == 1 {
                assert(n < 10);
            }
        }
        assert(n / 10 < pow10((k - 1) as nat)) by (nonlinear_arith)
            requires
                n < pow10(k),
                pow10(k) == 10 * pow10((k - 1) as nat),
                n >= 10,
        ;
        lemma_decimal_chars_len_le(n / 10, (k - 1) as nat);
    }
}

/// A 64-bit identifier prints at most twenty digits.
pub proof fn lemma_decimal_chars_len_u64(n: u64)
    ensures
        decimal_chars(n as nat).len() <= 20,
{
    assert(pow10(20) > u64::MAX) by {
        reveal_with_fuel(pow10, 21);
    }
    lemma_decimal_chars_len_le(n as nat, 20);
}

} // verus!
