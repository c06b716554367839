//! The Gleam shell protocol: the guest describes its view as integer
//! opcodes (`payload * 16 + tag`), and the host lays them out as widgets.

use vstd::prelude::*;
use crate::text::{append_chars, append_str, int_chars, int_text, string_from_chars};

verus! {

/// Rust's `%` on an `i64` (the remainder takes the dividend's sign).
pub open spec fn trunc_rem(a: int, b: int) -> int {
    if a >= 0 { a % b } else { -((-a) % b) }
}

/// Rust's `/` on an `i64` (the quotient rounds toward zero).
pub open spec fn trunc_div(a: int, b: int) -> int {
    if a >= 0 { a / b } else { -((-a) / b) }
}

fn rem_i64(a: i64, b: i64) -> (r: i64)
    requires
        b > 0,
    ensures
        r == trunc_rem(a as int, b as int),
{
    if a >= 0 {
        a % b
    } else {
        let m = if a == i64::MIN { 9223372036854775808u64 } else { (-a) as u64 };
        let r = m % (b as u64);
        -(r as i64)
    }
}

fn div_i64(a: i64, b: i64) -> (r: i64)
    requires
        b > 1,
    ensures
        r == trunc_div(a as int, b as int),
{
    if a >= 0 {
        a / b
    } else {
        let m = if a == i64::MIN { 9223372036854775808u64 } else { (-a) as u64 };
        let q = m / (b as u64);
        assert(q <= 4611686018427387904u64) by (nonlinear_arith)
            requires
                q == m / (b as u64),
                m <= 9223372036854775808u64,
                b > 1,
        ;
        -(q as i64)
    }
}

/// The tiny text vocabulary shared with the Gleam shell guest.
pub open spec fn shell_text_of(code: i64) -> Seq<char> {
    if code == 1 {
        "Gleam App"@
    } else if code == 2 {
        "Gleam owns model, view, update, and navigation."@
    } else if code == 3 {
        "+1"@
    } else if code == 4 {
        "−1"@
    } else if code == 5 {
        "Reset"@
    } else if code == 6 {
        "Ready"@
    } else if code == 7 {
        "Counting up"@
    } else if code == 8 {
        "Counting down"@
    } else if code == 9 {
        "Reset to zero"@
    } else if code == 10 {
        "Home"@
    } else if code == 11 {
        "About"@
    } else if code == 12 {
        "Counter"@
    } else if code == 13 {
        "This whole window is driven by Gleam opcodes. Vidya only applies the theme and paints widgets."@
    } else if code == 14 {
        "About"@
    } else if code == 15 {
        "Painted by Vidya"@
    } else {
        "?"@
    }
}

/// Text for a vocabulary code (`"?"` for an unknown one).
pub fn shell_text(code: i64) -> (s: &'static str)
    ensures
        s@ == shell_text_of(code),
{
    if code == 1 {
        "Gleam App"
    } else if code == 2 {
        "Gleam owns model, view, update, and navigation."
    } else if code == 3 {
        "+1"
    } else if code == 4 {
        "−1"
    } else if code == 5 {
        "Reset"
    } else if code == 6 {
        "Ready"
    } else if code == 7 {
        "Counting up"
    } else if code == 8 {
        "Counting down"
    } else if code == 9 {
        "Reset to zero"
    } else if code == 10 {
        "Home"
    } else if code == 11 {
        "About"
    } else if code == 12 {
        "Counter"
    } else if code == 13 {
        "This whole window is driven by Gleam opcodes. Vidya only applies the theme and paints widgets."
    } else if code == 14 {
        "About"
    } else if code == 15 {
        "Painted by Vidya"
    } else {
        "?"
    }
}

/// Result of painting one Gleam view frame.
pub struct ShellPaint {
    pub pending_msg: Option<i64>,
    pub error: Option<String>,
}

/// How many opcodes a view reports: a negative count is none.
pub fn op_count(n: i64) -> (c: usize)
    requires
        n <= usize::MAX,
    ensures
        c == (if n < 0 { 0 } else { n as int }),
{
    if n < 0 { 0 } else { n as usize }
}

/// The tag of an opcode.
pub open spec fn tag_of(op: i64) -> int {
    trunc_rem(op as int, 16)
}

/// The payload of an opcode.
pub open spec fn payload_of(op: i64) -> int {
    trunc_div(op as int, 16)
}

/// Where the card opened just before `from` closes, looking no further than
/// `end`: the close that brings the depth back to zero, or `end`.
pub open spec fn card_end_from(ops: Seq<i64>, i: int, end: int, depth: int) -> int
    decreases end - i,
{
    if i >= end {
        end
    } else if tag_of(ops[i]) == 8 {
        card_end_from(ops, i + 1, end, depth + 1)
    } else if tag_of(ops[i]) == 9 {
        if depth - 1 == 0 { i } else { card_end_from(ops, i + 1, end, depth - 1) }
    } else {
        card_end_from(ops, i + 1, end, depth)
    }
}

proof fn lemma_card_end_range(ops: Seq<i64>, i: int, end: int, depth: int)
    requires
        i <= end,
    ensures
        i <= card_end_from(ops, i, end, depth) <= end,
    decreases end - i,
{
    if i < end {
        if tag_of(ops[i]) == 8 {
            lemma_card_end_range(ops, i + 1, end, depth + 1);
        } else if tag_of(ops[i]) == 9 {
            if depth - 1 != 0 {
                lemma_card_end_range(ops, i + 1, end, depth - 1);
            }
        } else {
            lemma_card_end_range(ops, i + 1, end, depth);
        }
    }
}

/// Index of the close matching a card opened just before `from`, or `end`.
pub fn find_card_end(ops: &Vec<i64>, from: usize, end: usize) -> (r: usize)
    requires
        from <= end <= ops@.len(),
    ensures
        r == card_end_from(ops@, from as int, end as int, 1),
        from <= r <= end,
{
    proof {
        lemma_card_end_range(ops@, from as int, end as int, 1);
    }
    let mut depth: u128 = 1;
    let mut i = from;
    while i < end
        invariant
            from <= i <= end <= ops@.len(),
            1 <= depth <= 1 + (i - from),
            card_end_from(ops@, from as int, end as int, 1) == card_end_from(ops@, i as int, end as int, depth as int),
        decreases end - i,
    {
        let tag = rem_i64(ops[i], 16);
        if tag == 8 {
            depth = depth + 1;
        } else if tag == 9 {
            depth = depth - 1;
            if depth == 0 {
                return i;
            }
        }
        i = i + 1;
    }
    end
}

/// One button of a row: the message it sends, whether it is the primary
/// one, and its label's vocabulary code.
#[derive(Debug, Clone, Copy, PartialEq, Eq, Structural)]
pub struct ShellButton {
    pub msg: i64,
    pub primary: bool,
    pub label: i64,
}

/// Vertical space between widgets.
#[derive(Debug, Clone, Copy, PartialEq, Eq, Structural)]
pub enum SpaceSize {
    Xs,
    Sm,
    Md,
}

/// One widget of the laid-out view. A card is `CardOpen(n)`, the `n` items
/// inside it, then `CardClose`.
#[derive(Debug, Clone, PartialEq, Eq)]
pub enum ShellItem {
    Title(i64),
    Body(i64),
    Value(i64),
    Buttons(Vec<ShellButton>),
    Space(SpaceSize),
    Status(i64),
    Header(i64),
    CardOpen(usize),
    CardClose,
}

/// A laid-out widget as the specification sees it.
pub enum ItemView {
    Title(i64),
    Body(i64),
    Value(i64),
    Buttons(Seq<ShellButton>),
    Space(SpaceSize),
    Status(i64),
    Header(i64),
    CardOpen(nat),
    CardClose,
}

impl View for ShellItem {
    type V = ItemView;

    open spec fn view(&self) -> ItemView {
        match self {
            ShellItem::Title(c) => ItemView::Title(*c),
            ShellItem::Body(c) => ItemView::Body(*c),
            ShellItem::Value(v) => ItemView::Value(*v),
            ShellItem::Buttons(b) => ItemView::Buttons(b@),
            ShellItem::Space(s) => ItemView::Space(*s),
            ShellItem::Status(c) => ItemView::Status(*c),
            ShellItem::Header(c) => ItemView::Header(*c),
            ShellItem::CardOpen(n) => ItemView::CardOpen(*n as nat),
            ShellItem::CardClose => ItemView::CardClose,
        }
    }
}

/// The items' views.
pub open spec fn items_view(items: Seq<ShellItem>) -> Seq<ItemView> {
    items.map_values(|it: ShellItem| it@)
}

/// The button an opcode payload describes: label in the low byte, message in
/// the next, primary in the bit above.
pub open spec fn button_of(p: int) -> ShellButton {
    ShellButton {
        msg: trunc_rem(trunc_div(p, 256), 256) as i64,
        primary: trunc_rem(trunc_div(p, 65536), 2) == 1,
        label: trunc_rem(p, 256) as i64,
    }
}

/// The pending row of buttons, if there is one.
pub open spec fn flush(row: Seq<ShellButton>) -> Seq<ItemView> {
    if row.len() == 0 { Seq::empty() } else { seq![ItemView::Buttons(row)] }
}

/// The size a space opcode asks for.
pub open spec fn space_of(p: int) -> SpaceSize {
    if p == 0 { SpaceSize::Xs } else if p == 1 { SpaceSize::Sm } else { SpaceSize::Md }
}

/// Lay out `ops[i..end]` with the button row `row` still open: consecutive
/// buttons share a row, which any other widget (but not an unknown opcode)
/// closes; a card holds the opcodes up to its matching close (or to the end
/// of the range); a stray close ends the range.
pub open spec fn layout(ops: Seq<i64>, i: int, end: int, row: Seq<ShellButton>) -> Seq<ItemView>
    decreases end - i,
{
    if i < 0 || i >= end || end > ops.len() {
        flush(row)
    } else {
        let t = tag_of(ops[i]);
        let p = payload_of(ops[i]);
        if t == 1 {
            flush(row) + seq![ItemView::Title(p as i64)] + layout(ops, i + 1, end, Seq::empty())
        } else if t == 2 {
            flush(row) + seq![ItemView::Body(p as i64)] + layout(ops, i + 1, end, Seq::empty())
        } else if t == 3 {
            flush(row) + seq![ItemView::Value(p as i64)] + layout(ops, i + 1, end, Seq::empty())
        } else if t == 4 {
            layout(ops, i + 1, end, row.push(button_of(p)))
        } else if t == 5 {
            flush(row) + seq![ItemView::Space(space_of(p))] + layout(ops, i + 1, end, Seq::empty())
        } else if t == 6 {
            flush(row) + seq![ItemView::Status(p as i64)] + layout(ops, i + 1, end, Seq::empty())
        } else if t == 7 {
            flush(row) + seq![ItemView::Header(p as i64)] + layout(ops, i + 1, end, Seq::empty())
        } else if t == 8 {
            let close = card_end_from(ops, i + 1, end, 1);
            if i + 1 <= close <= end {
                let inner = layout(ops, i + 1, close, Seq::empty());
                flush(row) + seq![ItemView::CardOpen(inner.len())] + inner + seq![ItemView::CardClose]
                    + if close >= end { Seq::empty() } else { layout(ops, close + 1, end, Seq::empty()) }
            } else {
                flush(row)
            }
        } else if t == 9 {
            flush(row)
        } else {
            layout(ops, i + 1, end, row)
        }
    }
}

proof fn lemma_items_view_add(a: Seq<ShellItem>, b: Seq<ShellItem>)
    ensures
        items_view(a + b) == items_view(a) + items_view(b),
{
    assert(items_view(a + b) =~= items_view(a) + items_view(b));
}

fn flush_row(out: &mut Vec<ShellItem>, row: &mut Vec<ShellButton>)
    ensures
        items_view(final(out)@) == items_view(old(out)@) + flush(old(row)@),
        final(row)@ == Seq::<ShellButton>::empty(),
{
    if row.len() > 0 {
        let mut taken: Vec<ShellButton> = Vec::new();
        std::mem::swap(&mut taken, row);
        let ghost before = out@;
        out.push(ShellItem::Buttons(taken));
        proof {
            lemma_items_view_add(before, seq![out@.last()]);
            assert(out@ =~= before + seq![out@.last()]);
        }
    } else {
        assert(items_view(out@) =~= items_view(out@) + Seq::<ItemView>::empty());
    }
}

fn push_item(out: &mut Vec<ShellItem>, item: ShellItem)
    ensures
        items_view(final(out)@) == items_view(old(out)@) + seq![item@],
{
    out.push(item);
    proof {
        assert(items_view(out@) =~= items_view(old(out)@) + seq![item@]);
    }
}

fn button_from(p: i64) -> (b: ShellButton)
    ensures
        b == button_of(p as int),
{
    let label = rem_i64(p, 256);
    let msg = rem_i64(div_i64(p, 256), 256);
    let primary = rem_i64(div_i64(p, 65536), 2) == 1;
    ShellButton { msg, primary, label }
}

/// Lay out the opcodes `ops[start..end]` as widgets.
pub fn layout_ops(ops: &Vec<i64>, start: usize, end: usize) -> (out: Vec<ShellItem>)
    requires
        start <= end <= ops@.len(),
    ensures
        items_view(out@) == layout(ops@, start as int, end as int, Seq::empty()),
    decreases end - start,
{
    let mut out: Vec<ShellItem> = Vec::new();
    let mut row: Vec<ShellButton> = Vec::new();
    let mut i = start;
    assert(items_view(out@) =~= Seq::<ItemView>::empty());
    loop
        invariant
            start <= i <= end <= ops@.len(),
            layout(ops@, start as int, end as int, Seq::empty()) == items_view(out@) + layout(
                ops@,
                i as int,
                end as int,
                row@,
            ),
        ensures
            layout(ops@, start as int, end as int, Seq::empty()) == items_view(out@),
        decreases end - i,
    {
        let ghost before = items_view(out@);
        let ghost row0 = row@;
        if i >= end {
            flush_row(&mut out, &mut row);
            break;
        }
        let op = ops[i];
        let tag = rem_i64(op, 16);
        let p = div_i64(op, 16);
        if tag == 4 {
            row.push(button_from(p));
            i = i + 1;
        } else if tag == 1 || tag == 2 || tag == 3 || tag == 5 || tag == 6 || tag == 7 {
            flush_row(&mut out, &mut row);
            let item = if tag == 1 {
                ShellItem::Title(p)
            } else if tag == 2 {
                ShellItem::Body(p)
            } else if tag == 3 {
                ShellItem::Value(p)
            } else if tag == 5 {
                ShellItem::Space(if p == 0 { SpaceSize::Xs } else if p == 1 { SpaceSize::Sm } else { SpaceSize::Md })
            } else if tag == 6 {
                ShellItem::Status(p)
            } else {
                ShellItem::Header(p)
            };
            push_item(&mut out, item);
            i = i + 1;
            proof {
                assert(items_view(out@) + layout(ops@, i as int, end as int, row@) =~= before + (flush(row0)
                    + seq![item@] + layout(ops@, i as int, end as int, Seq::empty())));
            }
        } else if tag == 8 {
            flush_row(&mut out, &mut row);
            let close = find_card_end(ops, i + 1, end);
            let mut inner = layout_ops(ops, i + 1, close);
            let n = inner.len();
            push_item(&mut out, ShellItem::CardOpen(n));
            let ghost mid = out@;
            let ghost inner_v = inner@;
            out.append(&mut inner);
            proof {
                lemma_items_view_add(mid, inner_v);
            }
            push_item(&mut out, ShellItem::CardClose);
            if close >= end {
                proof {
                    assert(items_view(out@) + layout(ops@, end as int, end as int, Seq::empty())
                        =~= before + layout(ops@, i as int, end as int, row0));
                }
                i = end;
                break;
            }
            proof {
                assert(items_view(out@) + layout(ops@, close + 1, end as int, Seq::empty())
                    =~= before + layout(ops@, i as int, end as int, row0));
            }
            i = close + 1;
        } else if tag == 9 {
            flush_row(&mut out, &mut row);
            proof {
                assert(items_view(out@) =~= before + layout(ops@, i as int, end as int, row0));
            }
            break;
        } else {
            i = i + 1;
        }
    }
    out
}

/// Card brackets match: every `CardOpen(n)` is followed by `n` items that
/// match among themselves and then its `CardClose`, and no close stands alone.
pub open spec fn bracketed(s: Seq<ItemView>) -> bool
    decreases s.len(),
{
    if s.len() == 0 {
        true
    } else {
        match s[0] {
            ItemView::CardOpen(m) => {
                let n = m as int;
                &&& n + 2 <= s.len()
                &&& s[n + 1] is CardClose
                &&& bracketed(s.subrange(1, n + 1))
                &&& bracketed(s.subrange(n + 2, s.len() as int))
            },
            ItemView::CardClose => false,
            _ => bracketed(s.subrange(1, s.len() as int)),
        }
    }
}

proof fn lemma_bracketed_concat(a: Seq<ItemView>, b: Seq<ItemView>)
    requires
        bracketed(a),
        bracketed(b),
    ensures
        bracketed(a + b),
    decreases a.len(),
{
    if a.len() == 0 {
        assert(a + b =~= b);
    } else {
        let ab = a + b;
        match a[0] {
            ItemView::CardOpen(m) => {
                let n = m as int;
                let rest = a.subrange(n + 2, a.len() as int);
                lemma_bracketed_concat(rest, b);
                assert(ab.subrange(1, n + 1) =~= a.subrange(1, n + 1));
                assert(ab.subrange(n + 2, ab.len() as int) =~= rest + b);
            },
            ItemView::CardClose => {},
            _ => {
                let rest = a.subrange(1, a.len() as int);
                lemma_bracketed_concat(rest, b);
                assert(ab.subrange(1, ab.len() as int) =~= rest + b);
            },
        }
    }
}

proof fn lemma_single_bracketed(it: ItemView)
    requires
        !(it is CardOpen),
        !(it is CardClose),
    ensures
        bracketed(seq![it]),
{
    assert(seq![it].subrange(1, 1) =~= Seq::<ItemView>::empty());
    assert(bracketed(Seq::<ItemView>::empty()));
}

proof fn lemma_card_bracketed(inner: Seq<ItemView>)
    requires
        bracketed(inner),
    ensures
        bracketed(seq![ItemView::CardOpen(inner.len())] + inner + seq![ItemView::CardClose]),
{
    let s = seq![ItemView::CardOpen(inner.len())] + inner + seq![ItemView::CardClose];
    let n = inner.len() as int;
    assert(s.subrange(1, n + 1) =~= inner);
    assert(s.subrange(n + 2, s.len() as int) =~= Seq::<ItemView>::empty());
    assert(bracketed(Seq::<ItemView>::empty()));
    assert(s[0] == ItemView::CardOpen(inner.len()));
    assert(s[n + 1] is CardClose);
}

/// The shell's layout always has matching card brackets, so a painter can
/// open a card at `CardOpen(n)` and close it `n` items later, whatever
/// opcodes the guest sends.
pub proof fn lemma_layout_bracketed(ops: Seq<i64>, i: int, end: int, row: Seq<ShellButton>)
    ensures
        bracketed(layout(ops, i, end, row)),
    decreases end - i,
{
    assert(bracketed(flush(row))) by {
        if row.len() > 0 {
            lemma_single_bracketed(ItemView::Buttons(row));
        }
    }
    if !(i < 0 || i >= end || end > ops.len()) {
        let t = tag_of(ops[i]);
        let p = payload_of(ops[i]);
        if t == 4 {
            lemma_layout_bracketed(ops, i + 1, end, row.push(button_of(p)));
        } else if t == 8 {
            let close = card_end_from(ops, i + 1, end, 1);
            if i + 1 <= close <= end {
                let inner = layout(ops, i + 1, close, Seq::empty());
                lemma_layout_bracketed(ops, i + 1, close, Seq::empty());
                lemma_card_bracketed(inner);
                let card = seq![ItemView::CardOpen(inner.len())] + inner + seq![ItemView::CardClose];
                lemma_bracketed_concat(flush(row), card);
                if close < end {
                    lemma_layout_bracketed(ops, close + 1, end, Seq::empty());
                    lemma_bracketed_concat(flush(row) + card, layout(ops, close + 1, end, Seq::empty()));
                    assert(layout(ops, i, end, row) =~= flush(row) + card + layout(ops, close + 1, end, Seq::empty()));
                } else {
                    assert(layout(ops, i, end, row) =~= flush(row) + card);
                }
            }
        } else if t == 9 {
        } else if t == 1 || t == 2 || t == 3 || t == 5 || t == 6 || t == 7 {
            let it = if t == 1 {
                ItemView::Title(p as i64)
            } else if t == 2 {
                ItemView::Body(p as i64)
            } else if t == 3 {
                ItemView::Value(p as i64)
            } else if t == 5 {
                ItemView::Space(space_of(p))
            } else if t == 6 {
                ItemView::Status(p as i64)
            } else {
                ItemView::Header(p as i64)
            };
            lemma_single_bracketed(it);
            lemma_layout_bracketed(ops, i + 1, end, Seq::empty());
            lemma_bracketed_concat(flush(row), seq![it]);
            lemma_bracketed_concat(flush(row) + seq![it], layout(ops, i + 1, end, Seq::empty()));
            assert(layout(ops, i, end, row) =~= flush(row) + seq![it] + layout(ops, i + 1, end, Seq::empty()));
        } else {
            lemma_layout_bracketed(ops, i + 1, end, row);
        }
    }
}

/// The value the first value opcode of a view shows, if it has one.
pub open spec fn first_value(ops: Seq<i64>) -> Option<i64>
    decreases ops.len(),
{
    if ops.len() == 0 {
        None
    } else if tag_of(ops[0]) == 3 {
        Some(payload_of(ops[0]) as i64)
    } else {
        first_value(ops.drop_first())
    }
}

/// The value a shell view shows: the payload of its first value opcode.
pub fn shell_value(ops: &Vec<i64>) -> (r: Result<i64, String>)
    ensures
        match first_value(ops@) {
            Some(v) => r == Ok::<i64, String>(v),
            None => r matches Err(e) && e@ == "no TAG_VALUE in view"@,
        },
{
    let mut i: usize = 0;
    proof {
        assert(ops@.skip(0) =~= ops@);
    }
    while i < ops.len()
        invariant
            i <= ops@.len(),
            first_value(ops@) == first_value(ops@.skip(i as int)),
        decreases ops@.len() - i,
    {
        if rem_i64(ops[i], 16) == 3 {
            return Ok(div_i64(ops[i], 16));
        }
        proof {
            assert(ops@.skip(i as int).drop_first() =~= ops@.skip(i + 1));
        }
        i = i + 1;
    }
    Err(String::from_str("no TAG_VALUE in view"))
}

/// A scripted step's check of the shell's value: the error names the step,
/// what was expected and what came.
pub fn expect_shell_value(got: i64, expected: i64, step: &str) -> (r: Result<(), String>)
    ensures
        got == expected ==> r is Ok,
        got != expected ==> (r matches Err(e) && e@ == step@ + ": expected value="@ + int_text(expected as int)
            + ", got "@ + int_text(got as int)),
{
    if got == expected {
        return Ok(());
    }
    let mut m: Vec<char> = Vec::new();
    append_str(&mut m, step);
    append_str(&mut m, ": expected value=");
    append_chars(&mut m, &int_chars(expected));
    append_str(&mut m, ", got ");
    append_chars(&mut m, &int_chars(got));
    Err(string_from_chars(&m))
}

/// A scripted step's check of the calculator: display, pending operator and
/// error flag all as expected, else an error naming the step and both triples.
pub fn expect_display(got: (i64, i64, i64), want: (i64, i64, i64), step: &str) -> (r: Result<(), String>)
    ensures
        got == want ==> r is Ok,
        got != want ==> (r matches Err(e) && e@ == step@ + ": expected display="@ + int_text(want.0 as int)
            + " pending="@ + int_text(want.1 as int) + " err="@ + int_text(want.2 as int)
            + ", got display="@ + int_text(got.0 as int) + " pending="@ + int_text(got.1 as int)
            + " err="@ + int_text(got.2 as int)),
{
    if got.0 == want.0 && got.1 == want.1 && got.2 == want.2 {
        return Ok(());
    }
    let mut m: Vec<char> = Vec::new();
    append_str(&mut m, step);
    append_str(&mut m, ": expected display=");
    append_chars(&mut m, &int_chars(want.0));
    append_str(&mut m, " pending=");
    append_chars(&mut m, &int_chars(want.1));
    append_str(&mut m, " err=");
    append_chars(&mut m, &int_chars(want.2));
    append_str(&mut m, ", got display=");
    append_chars(&mut m, &int_chars(got.0));
    append_str(&mut m, " pending=");
    append_chars(&mut m, &int_chars(got.1));
    append_str(&mut m, " err=");
    append_chars(&mut m, &int_chars(got.2));
    Err(string_from_chars(&m))
}

} // verus!
