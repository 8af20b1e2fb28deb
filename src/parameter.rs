//! The parameter that a widget edits, seen through normalized values.
use vstd::prelude::*;
use crate::normalized::{SCALE, is_normalized};
use crate::decimal::{decimal, parse_decimal, append_decimal, parse_decimal_at_most, lemma_decimal_round_trip};

verus! {

/// What a widget needs of a parameter: its default, its steps, and how its
/// values are written and read as text. Values are normalized.
pub trait NormalizedParameter {
    /// The parameter's own invariant.
    spec fn wf(&self) -> bool;

    /// The default normalized value.
    spec fn default_spec(&self) -> u32;

    /// The number of discrete steps, if the parameter is stepped.
    spec fn step_count_spec(&self) -> Option<u32>;

    /// The step after `from`; `fine` asks for a smaller step where there is one.
    spec fn next_step_spec(&self, from: u32, fine: bool) -> u32;

    /// The step before `from`; `fine` asks for a smaller step where there is one.
    spec fn previous_step_spec(&self, from: u32, fine: bool) -> u32;

    /// The text shown for a value.
    spec fn format_spec(&self, value: u32, include_unit: bool) -> Seq<char>;

    /// The value that a text stands for, if any.
    spec fn parse_spec(&self, text: Seq<char>) -> Option<u32>;

    /// The current normalized value. It may change between two calls, as
    /// automation moves the parameter.
    fn normalized_value(&self) -> (r: u32)
        requires
            self.wf(),
        ensures
            is_normalized(r as int),
    ;

    fn default_normalized_value(&self) -> (r: u32)
        requires
            self.wf(),
        ensures
            r == self.default_spec(),
            is_normalized(r as int),
    ;

    fn step_count(&self) -> (r: Option<u32>)
        requires
            self.wf(),
        ensures
            r == self.step_count_spec(),
    ;

    fn next_step(&self, from: u32, fine: bool) -> (r: u32)
        requires
            self.wf(),
            is_normalized(from as int),
        ensures
            r == self.next_step_spec(from, fine),
            is_normalized(r as int),
    ;

    fn previous_step(&self, from: u32, fine: bool) -> (r: u32)
        requires
            self.wf(),
            is_normalized(from as int),
        ensures
            r == self.previous_step_spec(from, fine),
            is_normalized(r as int),
    ;

    fn format(&self, value: u32, include_unit: bool) -> (r: String)
        requires
            self.wf(),
            is_normalized(value as int),
        ensures
            r@ == self.format_spec(value, include_unit),
    ;

    fn parse(&self, text: &str) -> (r: Option<u32>)
        requires
            self.wf(),
        ensures
            r == self.parse_spec(text@),
            r matches Some(v) ==> is_normalized(v as int),
    ;
}

/// The largest number of steps a `SteppedParameter` can have: more would not
/// stay apart in normalized units.
pub const MAX_STEPS: u32 = 100_000;

/// A parameter with `steps + 1` evenly spread values, shown as their index.
pub struct SteppedParameter {
    pub steps: u32,
    pub default_index: u32,
    pub current_index: u32,
}

/// The normalized value of step `k` out of `n`.
pub open spec fn step_value(k: int, n: int) -> int {
    (k * SCALE) / n
}

/// The step out of `n` nearest to normalized value `v`.
pub open spec fn nearest_step(v: int, n: int) -> int {
    (v * n + SCALE / 2) / (SCALE as int)
}

/// Step `k` out of `n` lies in the normalized range.
proof fn lemma_step_value_in_range(k: int, n: int)
    requires
        0 <= k <= n,
        0 < n,
    ensures
        is_normalized(step_value(k, n)),
{
    let s = SCALE as int;
    assert(0 <= (k * s) / n <= s) by (nonlinear_arith)
        requires 0 <= k <= n, 0 < n, s > 0;
}

/// The step nearest to a normalized value is a step of the parameter.
proof fn lemma_nearest_step_in_range(v: int, n: int)
    requires
        is_normalized(v),
        0 < n,
    ensures
        0 <= nearest_step(v, n) <= n,
{
    let s = SCALE as int;
    let h = s / 2;
    assert(0 <= (v * n + h) / s <= n) by (nonlinear_arith)
        requires 0 <= v <= s, 0 < n, h == 500_000, s == 1_000_000;
}

/// The step nearest to the value of step `k` is `k` itself.
proof fn lemma_nearest_step_of_value(k: int, n: int)
    requires
        0 <= k <= n,
        0 < n <= MAX_STEPS,
    ensures
        nearest_step(step_value(k, n), n) == k,
{
    let s = SCALE as int;
    let q = (k * s) / n;
    let r = (k * s) % n;
    assert(k * s == q * n + r && 0 <= r < n) by (nonlinear_arith)
        requires q == (k * s) / n, r == (k * s) % n, n > 0;
    assert((q * n + 500_000) / s == k) by (nonlinear_arith)
        requires k * s == q * n + r, 0 <= r < n, n <= 100_000, s == 1_000_000;
}

impl SteppedParameter {
    /// A parameter of `steps` steps that starts at its default index; `None`
    /// when there are no steps, too many, or the default is not among them.
    pub fn new(steps: u32, default_index: u32) -> (r: Option<SteppedParameter>)
        ensures
            r is Some <==> (0 < steps <= MAX_STEPS && default_index <= steps),
            r matches Some(p) ==> p.wf() && p.steps == steps && p.default_index == default_index
                && p.current_index == default_index,
    {
        if 0 < steps && steps <= MAX_STEPS && default_index <= steps {
            Some(SteppedParameter { steps, default_index, current_index: default_index })
        } else {
            None
        }
    }

    fn value_at(&self, k: u32) -> (r: u32)
        requires
            self.wf(),
            k <= self.steps,
        ensures
            r as int == step_value(k as int, self.steps as int),
            is_normalized(r as int),
    {
        proof {
            lemma_step_value_in_range(k as int, self.steps as int);
        }
        assert(k as u64 * 1_000_000 <= 100_000 * 1_000_000) by (nonlinear_arith)
            requires k <= 100_000;
        ((k as u64 * SCALE as u64) / self.steps as u64) as u32
    }

    fn index_near(&self, v: u32) -> (r: u32)
        requires
            self.wf(),
            is_normalized(v as int),
        ensures
            r as int == nearest_step(v as int, self.steps as int),
            r <= self.steps,
    {
        proof {
            lemma_nearest_step_in_range(v as int, self.steps as int);
        }
        assert(v as u64 * self.steps as u64 <= 1_000_000 * 100_000) by (nonlinear_arith)
            requires v <= 1_000_000, self.steps <= 100_000;
        ((v as u64 * self.steps as u64 + (SCALE / 2) as u64) / SCALE as u64) as u32
    }

    /// Moves the parameter to the step nearest to a normalized value, as a
    /// host does with the value of a committed `set`.
    pub fn set_normalized_value(&mut self, v: u32)
        requires
            old(self).wf(),
            is_normalized(v as int),
        ensures
            final(self).wf(),
            final(self).steps == old(self).steps,
            final(self).default_index == old(self).default_index,
            final(self).current_index as int == nearest_step(v as int, old(self).steps as int),
    {
        self.current_index = self.index_near(v);
    }
}

impl NormalizedParameter for SteppedParameter {
    /// At least one step, not too many, and the default and current indices
    /// among them.
    open spec fn wf(&self) -> bool {
        &&& 0 < self.steps <= MAX_STEPS
        &&& self.default_index <= self.steps
        &&& self.current_index <= self.steps
    }

    open spec fn default_spec(&self) -> u32 {
        step_value(self.default_index as int, self.steps as int) as u32
    }

    open spec fn step_count_spec(&self) -> Option<u32> {
        Some(self.steps)
    }

    open spec fn next_step_spec(&self, from: u32, fine: bool) -> u32 {
        let k = nearest_step(from as int, self.steps as int);
        let k1 = if k < self.steps { k + 1 } else { self.steps as int };
        step_value(k1, self.steps as int) as u32
    }

    open spec fn previous_step_spec(&self, from: u32, fine: bool) -> u32 {
        let k = nearest_step(from as int, self.steps as int);
        let k1 = if k > 0 { k - 1 } else { 0 };
        step_value(k1, self.steps as int) as u32
    }

    open spec fn format_spec(&self, value: u32, include_unit: bool) -> Seq<char> {
        decimal(nearest_step(value as int, self.steps as int) as nat)
    }

    open spec fn parse_spec(&self, text: Seq<char>) -> Option<u32> {
        match parse_decimal(text) {
            Some(n) => if n <= self.steps {
                Some(step_value(n as int, self.steps as int) as u32)
            } else {
                None
            },
            None => None,
        }
    }

    fn normalized_value(&self) -> (r: u32) {
        self.value_at(self.current_index)
    }

    fn default_normalized_value(&self) -> (r: u32) {
        self.value_at(self.default_index)
    }

    fn step_count(&self) -> (r: Option<u32>) {
        Some(self.steps)
    }

    fn next_step(&self, from: u32, fine: bool) -> (r: u32) {
        let k = self.index_near(from);
        let k1 = if k < self.steps { k + 1 } else { self.steps };
        self.value_at(k1)
    }

    fn previous_step(&self, from: u32, fine: bool) -> (r: u32) {
        let k = self.index_near(from);
        let k1 = if k > 0 { k - 1 } else { 0 };
        self.value_at(k1)
    }

    fn format(&self, value: u32, include_unit: bool) -> (r: String) {
        let mut out = String::new();
        append_decimal(&mut out, self.index_near(value));
        out
    }

    fn parse(&self, text: &str) -> (r: Option<u32>) {
        match parse_decimal_at_most(text, self.steps) {
            Some(n) => Some(self.value_at(n)),
            None => None,
        }
    }
}


/// Writing a value as text, reading that text back and writing the result
/// again gives the same text.
pub proof fn lemma_format_parse_format(p: SteppedParameter, v: u32, include_unit: bool)
    requires
        p.wf(),
        is_normalized(v as int),
    ensures
        p.parse_spec(p.format_spec(v, include_unit)) is Some,
        p.format_spec(p.parse_spec(p.format_spec(v, include_unit)).unwrap(), include_unit)
            == p.format_spec(v, include_unit),
{
    let n = p.steps as int;
    let k = nearest_step(v as int, n);
    lemma_nearest_step_in_range(v as int, n);
    lemma_decimal_round_trip(k as nat);
    lemma_step_value_in_range(k, n);
    lemma_nearest_step_of_value(k, n);
}


/// Normalized units in one percent.
pub const PERCENT: u32 = 10_000;

/// A continuous parameter shown as a whole percentage, stepped by a coarse
/// or a fine amount.
pub struct PercentParameter {
    pub default_value: u32,
    pub coarse_step: u32,
    pub fine_step: u32,
    pub current_value: u32,
}

/// The whole percentage nearest to normalized value `v`.
pub open spec fn nearest_percent(v: int) -> int {
    (v + PERCENT / 2) / (PERCENT as int)
}

/// The text of a percentage, with its sign when the unit is asked for.
pub open spec fn percent_text(p: nat, include_unit: bool) -> Seq<char> {
    if include_unit { decimal(p).push('%') } else { decimal(p) }
}

/// A text without one trailing percent sign.
pub open spec fn without_percent_sign(s: Seq<char>) -> Seq<char> {
    if s.len() > 0 && s.last() == '%' { s.drop_last() } else { s }
}

impl PercentParameter {
    /// A parameter at its default; `None` when a value is out of range or
    /// the fine step is larger than the coarse one.
    pub fn new(default_value: u32, coarse_step: u32, fine_step: u32) -> (r: Option<PercentParameter>)
        ensures
            r is Some <==> (is_normalized(default_value as int) && fine_step <= coarse_step
                && coarse_step <= SCALE),
            r matches Some(p) ==> p.wf() && p.default_value == default_value
                && p.coarse_step == coarse_step && p.fine_step == fine_step
                && p.current_value == default_value,
    {
        if default_value <= SCALE && fine_step <= coarse_step && coarse_step <= SCALE {
            Some(PercentParameter { default_value, coarse_step, fine_step, current_value: default_value })
        } else {
            None
        }
    }

    /// Moves the parameter to a normalized value, as a host does with the
    /// value of a committed `set`.
    pub fn set_normalized_value(&mut self, v: u32)
        requires
            old(self).wf(),
            is_normalized(v as int),
        ensures
            final(self).wf(),
            final(self).current_value == v,
            final(self).default_value == old(self).default_value,
            final(self).coarse_step == old(self).coarse_step,
            final(self).fine_step == old(self).fine_step,
    {
        self.current_value = v;
    }

    fn step(&self, fine: bool) -> (r: u32)
        requires
            self.wf(),
        ensures
            r == (if fine { self.fine_step } else { self.coarse_step }),
            r <= SCALE,
    {
        if fine { self.fine_step } else { self.coarse_step }
    }
}

impl NormalizedParameter for PercentParameter {
    /// Every value in range, and the fine step no larger than the coarse one.
    open spec fn wf(&self) -> bool {
        &&& is_normalized(self.default_value as int)
        &&& is_normalized(self.current_value as int)
        &&& self.fine_step <= self.coarse_step <= SCALE
    }

    open spec fn default_spec(&self) -> u32 {
        self.default_value
    }

    open spec fn step_count_spec(&self) -> Option<u32> {
        None
    }

    open spec fn next_step_spec(&self, from: u32, fine: bool) -> u32 {
        let step = if fine { self.fine_step } else { self.coarse_step };
        if from + step >= SCALE { SCALE } else { (from + step) as u32 }
    }

    open spec fn previous_step_spec(&self, from: u32, fine: bool) -> u32 {
        let step = if fine { self.fine_step } else { self.coarse_step };
        if from <= step { 0 } else { (from - step) as u32 }
    }

    open spec fn format_spec(&self, value: u32, include_unit: bool) -> Seq<char> {
        percent_text(nearest_percent(value as int) as nat, include_unit)
    }

    open spec fn parse_spec(&self, text: Seq<char>) -> Option<u32> {
        match parse_decimal(without_percent_sign(text)) {
            Some(n) => if n <= 100 { Some((n * PERCENT) as u32) } else { None },
            None => None,
        }
    }

    fn normalized_value(&self) -> (r: u32) {
        self.current_value
    }

    fn default_normalized_value(&self) -> (r: u32) {
        self.default_value
    }

    fn step_count(&self) -> (r: Option<u32>) {
        None
    }

    fn next_step(&self, from: u32, fine: bool) -> (r: u32) {
        let step = self.step(fine);
        if from as u64 + step as u64 >= SCALE as u64 { SCALE } else { from + step }
    }

    fn previous_step(&self, from: u32, fine: bool) -> (r: u32) {
        let step = self.step(fine);
        if from <= step { 0 } else { from - step }
    }

    fn format(&self, value: u32, include_unit: bool) -> (r: String) {
        let mut out = String::new();
        append_decimal(&mut out, (value + PERCENT / 2) / PERCENT);
        if include_unit {
            proof {
                reveal_strlit("%");
            }
            out.append("%");
            assert(out@ =~= percent_text(nearest_percent(value as int) as nat, true));
        }
        out
    }

    fn parse(&self, text: &str) -> (r: Option<u32>) {
        let len = text.unicode_len();
        let digits = if len > 0 && text.get_char(len - 1) == '%' {
            text.substring_char(0, len - 1)
        } else {
            text
        };
        assert(digits@ =~= without_percent_sign(text@));
        match parse_decimal_at_most(digits, 100) {
            Some(n) => Some(n * PERCENT),
            None => None,
        }
    }
}

/// Writing a value as text, reading that text back and writing the result
/// again gives the same text.
pub proof fn lemma_percent_format_parse_format(p: PercentParameter, v: u32, include_unit: bool)
    requires
        p.wf(),
        is_normalized(v as int),
    ensures
        p.parse_spec(p.format_spec(v, include_unit)) is Some,
        p.format_spec(p.parse_spec(p.format_spec(v, include_unit)).unwrap(), include_unit)
            == p.format_spec(v, include_unit),
{
    let k = nearest_percent(v as int);
    assert(0 <= k <= 100);
    lemma_decimal_round_trip(k as nat);
    let d = decimal(k as nat);
    let t = percent_text(k as nat, include_unit);
    if include_unit {
        assert(t.drop_last() =~= d);
    } else {
        assert(d.last() != '%') by {
            assert(crate::decimal::is_digit(d[d.len() - 1]));
        }
    }
    assert(without_percent_sign(t) =~= d);
    assert(nearest_percent(k * PERCENT) == k);
}

} // verus!
