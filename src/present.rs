use vstd::prelude::*;
use vstd::string::{StrSliceExecFns, StringExecFns};
use vstd::utf8::is_ascii_chars;
use pad::{Alignment, PadStr};
use crate::ledger::{entrys_views, Database, Entrys, EntrysView, Statics, StaticView, static_views};

verus! {

/// What `with_exact_width` of the pad crate makes of a text and a width.
pub uninterp spec fn exact_width(s: Seq<char>, width: nat) -> Seq<char>;

/// What `pad_to_width` of the pad crate makes of a text and a width.
pub uninterp spec fn left_aligned(s: Seq<char>, width: nat) -> Seq<char>;

/// The characters from space to tilde, each one column wide.
pub open spec fn printable_ascii(s: Seq<char>) -> bool {
    forall|i: int| 0 <= i < s.len() ==> ' ' <= #[trigger] s[i] <= '~'
}

/// Text of one column per character in exactly `width` columns: cut to
/// the width, or followed by spaces up to it.
pub open spec fn spaced_left(s: Seq<char>, width: nat) -> Seq<char> {
    if s.len() >= width {
        s.take(width as int)
    } else {
        s + Seq::new((width - s.len()) as nat, |i: int| ' ')
    }
}

/// Text of one column per character, right-aligned in `width` columns:
/// spaces in front up to the width, never cut.
pub open spec fn spaced_right(s: Seq<char>, width: nat) -> Seq<char> {
    if s.len() >= width {
        s
    } else {
        Seq::new((width - s.len()) as nat, |i: int| ' ') + s
    }
}

/// Relies on pad's `PadStr::with_exact_width`: the text padded with spaces
/// or cut to `width` columns. It cuts by byte position, which is safe on
/// ASCII text only. Printable ASCII characters are one column each.
#[verifier::external_body]
fn pad_exact(s: &str, width: usize) -> (r: String)
    requires
        is_ascii_chars(s@),
    ensures
        r@ == exact_width(s@, width as nat),
        printable_ascii(s@) ==> r@ == spaced_left(s@, width as nat),
{
    s.with_exact_width(width)
}

/// Relies on pad's `PadStr::pad_to_width`: the text padded on the right
/// with spaces, never cut.
#[verifier::external_body]
fn pad_left(s: &str, width: usize) -> (r: String)
    ensures
        r@ == left_aligned(s@, width as nat),
{
    s.pad_to_width(width)
}

/// Relies on pad's `PadStr::pad_to_width_with_alignment` with
/// `Alignment::Right`: the text padded on the left with spaces up to
/// `width` columns. Printable ASCII characters are one column each.
#[verifier::external_body]
fn pad_right(s: &str, width: usize) -> (r: String)
    ensures
        printable_ascii(s@) ==> r@ == spaced_right(s@, width as nat),
{
    s.pad_to_width_with_alignment(width, Alignment::Right)
}

/// Relies on pad's `PadStr::pad_to_width_with_char`: the text followed by
/// `c` up to `width` columns, so for the empty text `width` copies of `c`.
#[verifier::external_body]
fn pad_fill(s: &str, width: usize, c: char) -> (r: String)
    ensures
        s@.len() == 0 ==> r@ == Seq::new(width as nat, |i: int| c),
{
    s.pad_to_width_with_char(width, c)
}

/// The decimal digits of a natural number, most significant first.
pub open spec fn digits(n: nat) -> Seq<char>
    decreases n,
{
    let d = ((n % 10) + ('0' as nat)) as char;
    if n < 10 {
        seq![d]
    } else {
        digits(n / 10).push(d)
    }
}

/// The decimal text of an integer: a minus sign for negatives, then its
/// digits.
pub open spec fn decimal_text(n: int) -> Seq<char> {
    if n < 0 {
        seq!['-'] + digits((-n) as nat)
    } else {
        digits(n as nat)
    }
}

/// The digit character for `d`, below 10.
fn digit_char(d: u128) -> (r: String)
    requires
        d < 10,
    ensures
        r@ == seq![((d as nat) + ('0' as nat)) as char],
{
    let all = "0123456789";
    proof {
        reveal_strlit("0123456789");
    }
    let k = d as usize;
    let one = all.substring_char(k, k + 1);
    proof {
        assert(one@ =~= seq![all@[k as int]]);
        if d == 0 { assert(all@[0] == '0'); }
        else if d == 1 { assert(all@[1] == '1'); }
        else if d == 2 { assert(all@[2] == '2'); }
        else if d == 3 { assert(all@[3] == '3'); }
        else if d == 4 { assert(all@[4] == '4'); }
        else if d == 5 { assert(all@[5] == '5'); }
        else if d == 6 { assert(all@[6] == '6'); }
        else if d == 7 { assert(all@[7] == '7'); }
        else if d == 8 { assert(all@[8] == '8'); }
        else { assert(all@[9] == '9'); }
    }
    String::from_str(one)
}

/// The decimal text of `n`.
pub fn decimal(n: i128) -> (r: String)
    ensures
        r@ == decimal_text(n as int),
{
    let mut mag: u128 = if n < 0 {
        ((-(n + 1)) as u128) + 1
    } else {
        n as u128
    };
    let ghost total = mag as nat;
    let mut acc = String::new();
    while mag >= 10
        invariant
            digits(total) == digits(mag as nat) + acc@,
        decreases mag,
    {
        let d = digit_char(mag % 10);
        let ghost m = mag as nat;
        assert(digits(m) == digits(m / 10).push(((m % 10) + ('0' as nat)) as char));
        assert(digits(m / 10).push(((m % 10) + ('0' as nat)) as char) + acc@ =~= digits(m / 10) + (d@
            + acc@));
        acc = d.concat(acc.as_str());
        mag = mag / 10;
    }
    let d = digit_char(mag);
    assert(digits(mag as nat) =~= d@);
    let body = d.concat(acc.as_str());
    if n < 0 {
        let minus = String::from_str("-");
        proof {
            reveal_strlit("-");
        }
        let r = minus.concat(body.as_str());
        assert(r@ =~= seq!['-'] + digits((-n) as nat));
        r
    } else {
        body
    }
}

/// Width of the name column.
pub const LABEL_WIDTH: usize = 25;

/// Width of the identity column of the statics listing.
pub const ID_WIDTH: usize = 5;

/// Width of an amount column.
pub const AMOUNT_WIDTH: usize = 10;

/// Width of the sum column, after the word "Summe".
pub const SUM_WIDTH: usize = 30;

/// Width of the rule above the sum.
pub const RULE_WIDTH: usize = 35;

/// A text set in a column of `width`: printable ASCII text is cut or
/// padded with spaces to exactly `width`; other ASCII text is set by pad;
/// other text is first cut to at most `width` characters, at character
/// boundaries, and then padded.
pub open spec fn column(s: Seq<char>, width: nat) -> Seq<char> {
    if printable_ascii(s) {
        spaced_left(s, width)
    } else if is_ascii_chars(s) {
        exact_width(s, width)
    } else {
        left_aligned(s.take(if s.len() < width { s.len() as int } else { width as int }), width)
    }
}

/// `s` set in a column of `width`.
pub fn fit_column(s: &str, width: usize) -> (r: String)
    ensures
        r@ == column(s@, width as nat),
{
    if s.is_ascii() {
        pad_exact(s, width)
    } else {
        let n = s.unicode_len();
        let k = if n < width {
            n
        } else {
            width
        };
        let head = s.substring_char(0, k);
        proof {
            assert(head@ =~= s@.take(k as int));
        }
        pad_left(head, width)
    }
}

/// One printed row: a label, a right-aligned amount, and whether the
/// amount is shown as negative.
pub struct Line {
    pub label: String,
    pub amount: String,
    pub negative: bool,
}

pub struct LineView {
    pub label: Seq<char>,
    pub amount: Seq<char>,
    pub negative: bool,
}

impl View for Line {
    type V = LineView;

    open spec fn view(&self) -> LineView {
        LineView { label: self.label@, amount: self.amount@, negative: self.negative }
    }
}

pub open spec fn line_views(s: Seq<Line>) -> Seq<LineView> {
    s.map_values(|l: Line| l@)
}

/// The digits are printable ASCII.
proof fn lemma_digits_printable(n: nat)
    ensures
        printable_ascii(digits(n)),
    decreases n,
{
    if n >= 10 {
        lemma_digits_printable(n / 10);
    }
}

/// Decimal text is printable ASCII.
proof fn lemma_decimal_printable(n: int)
    ensures
        printable_ascii(decimal_text(n)),
{
    if n < 0 {
        lemma_digits_printable((-n) as nat);
        let t = seq!['-'] + digits((-n) as nat);
        assert forall|i: int| 0 <= i < t.len() implies ' ' <= #[trigger] t[i] <= '~' by {
            if i > 0 {
                assert(t[i] == digits((-n) as nat)[i - 1]);
            }
        }
    } else {
        lemma_digits_printable(n as nat);
    }
}

/// The printed form of an amount: its decimal text right-aligned in
/// `width` columns.
pub open spec fn amount_field(amount: int, width: nat) -> Seq<char> {
    spaced_right(decimal_text(amount), width)
}

/// An amount right-aligned in `width` columns.
fn amount_text(amount: i128, width: usize) -> (r: String)
    ensures
        r@ == amount_field(amount as int, width as nat),
{
    let t = decimal(amount);
    proof {
        lemma_decimal_printable(amount as int);
    }
    pad_right(t.as_str(), width)
}

/// The row of an entry in the month view.
pub open spec fn entry_line(e: EntrysView) -> LineView {
    LineView {
        label: column(e.name, LABEL_WIDTH as nat),
        amount: amount_field(e.amount as int, AMOUNT_WIDTH as nat),
        negative: e.amount < 0,
    }
}

/// The row of a static in the statics listing: identity, name, amount.
pub open spec fn static_line(s: StaticView) -> LineView {
    LineView {
        label: column(decimal_text(s.id as int), ID_WIDTH as nat) + column(s.name, LABEL_WIDTH as nat),
        amount: amount_field(s.amount as int, AMOUNT_WIDTH as nat),
        negative: s.amount < 0,
    }
}

/// The sum of the amounts of `es`.
pub open spec fn amount_sum(es: Seq<EntrysView>) -> int
    decreases es.len(),
{
    if es.len() == 0 {
        0
    } else {
        amount_sum(es.drop_last()) + es.last().amount
    }
}

/// A rendered month: one row per entry, the rule, and the sum.
pub struct MonthView {
    pub rows: Vec<Line>,
    pub rule: String,
    pub sum: i128,
    pub sum_field: String,
    pub sum_negative: bool,
}

impl MonthView {
    /// This is the rendering of the entries `es`.
    pub open spec fn renders(&self, es: Seq<EntrysView>) -> bool {
        &&& line_views(self.rows@) == es.map_values(|e: EntrysView| entry_line(e))
        &&& self.rule@ == Seq::new(RULE_WIDTH as nat, |i: int| '-')
        &&& self.sum == amount_sum(es)
        &&& self.sum_field@ == amount_field(amount_sum(es), SUM_WIDTH as nat)
        &&& self.sum_negative == (amount_sum(es) < 0)
    }
}

/// The amounts of `es` add up, in magnitude, to at most their number times
/// the largest magnitude of an `isize`.
proof fn lemma_sum_bound(es: Seq<EntrysView>)
    ensures
        -(es.len() * 0x8000_0000_0000_0000) <= amount_sum(es) <= es.len() * 0x8000_0000_0000_0000,
    decreases es.len(),
{
    if es.len() > 0 {
        lemma_sum_bound(es.drop_last());
    }
}

/// Renders entries as the month view: a row per entry with the sign that
/// picks its colour, the rule, and the signed sum.
pub fn render_entries(entrys: &Vec<Entrys>) -> (r: MonthView)
    ensures
        r.renders(entrys_views(entrys@)),
{
    let ghost es = entrys_views(entrys@);
    let mut rows: Vec<Line> = Vec::new();
    let mut sum: i128 = 0;
    let mut i: usize = 0;
    while i < entrys.len()
        invariant
            i <= entrys@.len(),
            es == entrys_views(entrys@),
            sum == amount_sum(es.take(i as int)),
            line_views(rows@) == es.take(i as int).map_values(|e: EntrysView| entry_line(e)),
        decreases entrys@.len() - i,
    {
        let e = &entrys[i];
        proof {
            assert(es.take(i + 1).drop_last() =~= es.take(i as int));
            assert(es.take(i + 1).last() == e@);
            lemma_sum_bound(es.take(i as int));
        }
        sum = sum + e.amount as i128;
        let line = Line {
            label: fit_column(e.name.as_str(), LABEL_WIDTH),
            amount: amount_text(e.amount as i128, AMOUNT_WIDTH),
            negative: e.amount < 0,
        };
        let ghost before = rows@;
        rows.push(line);
        proof {
            assert(line_views(rows@) =~= line_views(before).push(line@));
            assert(es.take(i + 1).map_values(|e: EntrysView| entry_line(e)) =~= es.take(
                i as int,
            ).map_values(|e: EntrysView| entry_line(e)).push(entry_line(e@)));
        }
        i = i + 1;
    }
    proof {
        assert(es.take(i as int) =~= es);
    }
    let empty = String::new();
    let rule = pad_fill(empty.as_str(), RULE_WIDTH, '-');
    let sum_field = amount_text(sum, SUM_WIDTH);
    proof {
        assert(rule@ =~= Seq::new(RULE_WIDTH as nat, |i: int| '-'));
    }
    MonthView { rows, rule, sum, sum_field, sum_negative: sum < 0 }
}

/// The month view of month number `month`: its entries as
/// `Database::get_entrys` lists them, rendered.
pub fn display_month(month: u32, year: i32, data: &Database) -> (r: MonthView)
    requires
        data.inv(),
    ensures
        r.renders(data@.entries_for(month)),
{
    let entrys = data.get_entrys(month, year);
    render_entries(&entrys)
}

/// The statics listing: one row per static with its identity, name and
/// amount.
pub fn show_statics(data: &Database) -> (r: Vec<Line>)
    ensures
        line_views(r@) == data@.statics.map_values(|s: StaticView| static_line(s)),
{
    let statics = data.get_statics();
    let ghost ss = static_views(statics@);
    let mut rows: Vec<Line> = Vec::new();
    let mut i: usize = 0;
    while i < statics.len()
        invariant
            i <= statics@.len(),
            ss == static_views(statics@),
            ss == data@.statics,
            line_views(rows@) == ss.take(i as int).map_values(|s: StaticView| static_line(s)),
        decreases statics@.len() - i,
    {
        let s: &Statics = &statics[i];
        let id_text = decimal(s.id as i128);
        let label = fit_column(id_text.as_str(), ID_WIDTH).concat(
            fit_column(s.name.as_str(), LABEL_WIDTH).as_str(),
        );
        let line = Line {
            label,
            amount: amount_text(s.amount as i128, AMOUNT_WIDTH),
            negative: s.amount < 0,
        };
        let ghost before = rows@;
        rows.push(line);
        proof {
            assert(ss[i as int] == s@);
            assert(line_views(rows@) =~= line_views(before).push(line@));
            assert(ss.take(i + 1).map_values(|s: StaticView| static_line(s)) =~= ss.take(
                i as int,
            ).map_values(|s: StaticView| static_line(s)).push(static_line(ss[i as int])));
        }
        i = i + 1;
    }
    proof {
        assert(ss.take(i as int) =~= ss);
    }
    rows
}

} // verus!
