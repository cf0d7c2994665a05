//! Trace filters: their textual form, and which traces they keep.
use vstd::prelude::*;

use crate::trace::metrics::Metrics;
use crate::trace::event::sorted_by_ts;
use crate::trace::frame::{lemma_deep_wf_preorder, lemma_preorder_first, preorder};
use crate::trace::{find_event, Event, Frame, Trace, TraceError};

verus! {

#[verifier::external_type_specification]
#[verifier::external_body]
pub struct ExRegex(regex::Regex);

/// What `regex::Regex::new` reports for a pattern: `None` when the pattern
/// compiles, otherwise the text of the error (its `Display` form).
pub uninterp spec fn regex_compile_error(pattern: Seq<char>) -> Option<Seq<char>>;

/// Whether the regex compiled from `pattern` matches anywhere in `haystack`
/// (`regex::Regex::is_match`).
pub uninterp spec fn regex_matches(pattern: Seq<char>, haystack: Seq<char>) -> bool;

/// The `Display` text of the error that `str::parse::<u32>` reports for `s`.
pub uninterp spec fn u32_parse_error(s: Seq<char>) -> Seq<char>;

/// The `Display` text of the error that `str::parse::<u64>` reports for `s`.
pub uninterp spec fn u64_parse_error(s: Seq<char>) -> Seq<char>;

/// Calls `regex::Regex::new(pattern)`. Claims: it succeeds exactly when the
/// pattern compiles, and otherwise reports the error's text.
#[verifier::external_body]
fn compile_regex(pattern: &str) -> (r: Result<regex::Regex, String>)
    ensures
        r is Ok <==> regex_compile_error(pattern@) is None,
        r matches Err(e) ==> regex_compile_error(pattern@) == Some(e@),
{
    match regex::Regex::new(pattern) {
        Ok(re) => Ok(re),
        Err(e) => Err(e.to_string()),
    }
}

/// Calls `regex::Regex::is_match` on the target's compiled regex. Claims: the
/// answer is whether the target's pattern matches; this holds because a
/// `Target` is only built by compiling its own pattern (or cloning such a target).
#[verifier::external_body]
fn regex_is_match(target: &Target, haystack: &str) -> (r: bool)
    ensures
        r == regex_matches(target.spec_pattern(), haystack@),
{
    target.regex.is_match(haystack)
}

/// Calls `regex::Regex::clone`; nothing is claimed of the copy here (the
/// `Target` that holds it keeps the pattern it was compiled from).
#[verifier::external_body]
fn clone_regex(re: &regex::Regex) -> regex::Regex {
    re.clone()
}

/// Calls `str::parse::<u32>`. Claims, as std documents it: an optional `+`
/// followed by decimal digits whose value fits parses to that value; anything
/// else fails, and the error's text is reported.
#[verifier::external_body]
fn parse_u32(s: &str) -> (r: Result<u32, String>)
    ensures
        r is Ok <==> (unsigned_decimal(s@) matches Some(v) && v <= u32::MAX),
        r matches Ok(v) ==> unsigned_decimal(s@) == Some(v as nat),
        r matches Err(e) ==> e@ == u32_parse_error(s@),
{
    match s.parse::<u32>() {
        Ok(v) => Ok(v),
        Err(e) => Err(e.to_string()),
    }
}

/// Calls `str::parse::<u64>`, with the same claims as for `u32`.
#[verifier::external_body]
fn parse_u64(s: &str) -> (r: Result<u64, String>)
    ensures
        r is Ok <==> (unsigned_decimal(s@) matches Some(v) && v <= u64::MAX),
        r matches Ok(v) ==> unsigned_decimal(s@) == Some(v as nat),
        r matches Err(e) ==> e@ == u64_parse_error(s@),
{
    match s.parse::<u64>() {
        Ok(v) => Ok(v),
        Err(e) => Err(e.to_string()),
    }
}

/// A compiled regular expression together with the pattern it was compiled from.
#[derive(Debug)]
pub struct Target {
    pattern: String,
    regex: regex::Regex,
}

impl Target {
    pub closed spec fn spec_pattern(&self) -> Seq<char> {
        self.pattern@
    }

    /// Compiles `pattern`; fails with the text of the regex error.
    pub fn new(pattern: &str) -> (r: Result<Self, String>)
        ensures
            match regex_compile_error(pattern@) {
                None => r matches Ok(t) && t.spec_pattern() == pattern@,
                Some(e) => r matches Err(m) && m@ == e,
            },
    {
        match compile_regex(pattern) {
            Ok(regex) => Ok(Target { pattern: pattern.to_owned(), regex }),
            Err(e) => Err(e),
        }
    }

    pub fn pattern(&self) -> (r: &str)
        ensures
            r@ == self.spec_pattern(),
    {
        self.pattern.as_str()
    }

    /// Whether the pattern matches anywhere in `haystack`.
    pub fn is_match(&self, haystack: &str) -> (r: bool)
        ensures
            r == regex_matches(self.spec_pattern(), haystack@),
    {
        regex_is_match(self, haystack)
    }
}

impl Clone for Target {
    fn clone(&self) -> (r: Self)
        ensures
            r.spec_pattern() == self.spec_pattern(),
    {
        Target { pattern: self.pattern.clone(), regex: clone_regex(&self.regex) }
    }
}

/// `c` is an ASCII decimal digit.
pub open spec fn is_digit(c: char) -> bool {
    '0' <= c <= '9'
}

/// The value of a string of decimal digits.
pub open spec fn digits_value(s: Seq<char>) -> nat
    decreases s.len(),
{
    if s.len() == 0 {
        0
    } else {
        digits_value(s.drop_last()) * 10 + ((s.last() as u32) - ('0' as u32)) as nat
    }
}

/// The value of an unsigned decimal numeral: an optional `+` followed by at
/// least one digit.
pub open spec fn unsigned_decimal(s: Seq<char>) -> Option<nat> {
    let d = if s.len() > 0 && s[0] == '+' {
        s.drop_first()
    } else {
        s
    };
    if d.len() > 0 && forall|i: int| 0 <= i < d.len() ==> is_digit(#[trigger] d[i]) {
        Some(digits_value(d))
    } else {
        None
    }
}

/// Unicode `White_Space`, the whitespace that `str::trim` removes.
pub open spec fn is_white_space(c: char) -> bool {
    let u = c as u32;
    ||| 0x9 <= u <= 0xD
    ||| u == 0x20
    ||| u == 0x85
    ||| u == 0xA0
    ||| u == 0x1680
    ||| 0x2000 <= u <= 0x200A
    ||| u == 0x2028
    ||| u == 0x2029
    ||| u == 0x202F
    ||| u == 0x205F
    ||| u == 0x3000
}

pub fn white_space(c: char) -> (r: bool)
    ensures
        r == is_white_space(c),
{
    let u = c as u32;
    (0x9 <= u && u <= 0xD) || u == 0x20 || u == 0x85 || u == 0xA0 || u == 0x1680 || (0x2000 <= u
        && u <= 0x200A) || u == 0x2028 || u == 0x2029 || u == 0x202F || u == 0x205F || u == 0x3000
}

pub open spec fn trim_start(s: Seq<char>) -> Seq<char>
    decreases s.len(),
{
    if s.len() > 0 && is_white_space(s[0]) {
        trim_start(s.drop_first())
    } else {
        s
    }
}

pub open spec fn trim_end(s: Seq<char>) -> Seq<char>
    decreases s.len(),
{
    if s.len() > 0 && is_white_space(s.last()) {
        trim_end(s.drop_last())
    } else {
        s
    }
}

/// `s` without leading and trailing whitespace.
pub open spec fn trim(s: Seq<char>) -> Seq<char> {
    trim_end(trim_start(s))
}

/// The pieces of `s` between commas, in order (one piece when there is no comma).
pub open spec fn split_commas(s: Seq<char>) -> Seq<Seq<char>>
    decreases s.len(),
{
    if s.len() == 0 {
        seq![Seq::empty()]
    } else {
        let rest = split_commas(s.drop_last());
        if s.last() == ',' {
            rest.push(Seq::empty())
        } else {
            rest.update(rest.len() - 1, rest.last().push(s.last()))
        }
    }
}

/// Index of the first `c` in `s`, or the length of `s` when there is none.
pub open spec fn index_of(s: Seq<char>, c: char) -> int
    decreases s.len(),
{
    if s.len() == 0 {
        0
    } else if s[0] == c {
        0
    } else {
        1 + index_of(s.drop_first(), c)
    }
}

/// The settings a filter text describes; the target is its regex pattern.
pub struct FilterView {
    pub target: Option<Seq<char>>,
    pub errors_min: Option<u32>,
    pub errors_max: Option<u32>,
    pub duration_min: Option<u64>,
    pub duration_max: Option<u64>,
}

pub open spec fn empty_filter() -> FilterView {
    FilterView { target: None, errors_min: None, errors_max: None, duration_min: None, duration_max: None }
}

/// One `key=value` part of a filter text applied to the settings so far.
pub open spec fn apply_part(f: FilterView, part: Seq<char>) -> Result<FilterView, Seq<char>> {
    let p = trim(part);
    let k = index_of(p, '=');
    if k >= p.len() {
        Err("Invalid filter part: "@ + p)
    } else {
        let key = p.take(k);
        let value = p.skip(k + 1);
        if key == "target"@ {
            match regex_compile_error(value) {
                None => Ok(FilterView { target: Some(value), ..f }),
                Some(e) => Err("Invalid regex: "@ + e),
            }
        } else if key == "errors_min"@ {
            let d = unsigned_decimal(value);
            if d is Some && d->0 <= u32::MAX {
                Ok(FilterView { errors_min: Some(d->0 as u32), ..f })
            } else {
                Err("Invalid number for errors_min: "@ + u32_parse_error(value))
            }
        } else if key == "errors_max"@ {
            let d = unsigned_decimal(value);
            if d is Some && d->0 <= u32::MAX {
                Ok(FilterView { errors_max: Some(d->0 as u32), ..f })
            } else {
                Err("Invalid number for errors_max: "@ + u32_parse_error(value))
            }
        } else if key == "duration_min"@ {
            let d = unsigned_decimal(value);
            if d is Some && d->0 <= u64::MAX {
                Ok(FilterView { duration_min: Some(d->0 as u64), ..f })
            } else {
                Err("Invalid number for duration_min: "@ + u64_parse_error(value))
            }
        } else if key == "duration_max"@ {
            let d = unsigned_decimal(value);
            if d is Some && d->0 <= u64::MAX {
                Ok(FilterView { duration_max: Some(d->0 as u64), ..f })
            } else {
                Err("Invalid number for duration_max: "@ + u64_parse_error(value))
            }
        } else {
            Err("Unknown filter keyword: "@ + key)
        }
    }
}

/// The parts applied in order; the first failing part decides the error.
pub open spec fn apply_parts(f: FilterView, parts: Seq<Seq<char>>) -> Result<FilterView, Seq<char>>
    decreases parts.len(),
{
    if parts.len() == 0 {
        Ok(f)
    } else {
        match apply_parts(f, parts.drop_last()) {
            Ok(g) => apply_part(g, parts.last()),
            Err(e) => Err(e),
        }
    }
}

/// What a filter text `[target=regex,] [errors_min=num,] ...` describes.
pub open spec fn parse_filter(s: Seq<char>) -> Result<FilterView, Seq<char>> {
    apply_parts(empty_filter(), split_commas(s))
}

#[derive(Debug, Clone)]
pub struct Filter {
    pub target: Option<Target>,
    pub errors_min: Option<u32>,
    pub errors_max: Option<u32>,
    pub duration_min: Option<u64>,
    pub duration_max: Option<u64>,
}

impl Filter {
    pub const HELP: &'static str = "A filter in the form \"[target=regex,] [errors_min=num,] [errors_max=num,] [duration_min=num,] [duration_max=num]\". Traces with frames violating a filter are ignored. If target regex is not provided, filter applies to root frames.";
}

impl View for Filter {
    type V = FilterView;

    open spec fn view(&self) -> FilterView {
        FilterView {
            target: match self.target {
                Some(t) => Some(t.spec_pattern()),
                None => None,
            },
            errors_min: self.errors_min,
            errors_max: self.errors_max,
            duration_min: self.duration_min,
            duration_max: self.duration_max,
        }
    }
}

impl Default for Filter {
    fn default() -> (r: Self)
        ensures
            r@ == empty_filter(),
    {
        Filter { target: None, errors_min: None, errors_max: None, duration_min: None, duration_max: None }
    }
}

} // verus!
verus! {

fn chars_of(s: &str) -> (r: Vec<char>)
    ensures
        r@ == s@,
{
    broadcast use vstd::string::group_string_axioms;

    let mut v: Vec<char> = Vec::new();
    for c in it: s.chars()
        invariant
            v@ == it.seq().take(it.index() as int),
    {
        v.push(c);
    }
    v
}

proof fn lemma_trim_start(p: Seq<char>, k: int)
    requires
        0 <= k <= p.len(),
        forall|j: int| 0 <= j < k ==> is_white_space(#[trigger] p[j]),
        k == p.len() || !is_white_space(p[k]),
    ensures
        trim_start(p) == p.skip(k),
    decreases k,
{
    if k == 0 {
        assert(p.skip(0) =~= p);
    } else {
        let q = p.drop_first();
        assert forall|j: int| 0 <= j < k - 1 implies is_white_space(#[trigger] q[j]) by {
            assert(q[j] == p[j + 1]);
        }
        if k - 1 < q.len() {
            assert(q[k - 1] == p[k]);
        }
        lemma_trim_start(q, k - 1);
        assert(q.skip(k - 1) =~= p.skip(k));
    }
}

proof fn lemma_trim_end(p: Seq<char>, k: int)
    requires
        0 <= k <= p.len(),
        forall|j: int| k <= j < p.len() ==> is_white_space(#[trigger] p[j]),
        k == 0 || !is_white_space(p[k - 1]),
    ensures
        trim_end(p) == p.take(k),
    decreases p.len() - k,
{
    if k == p.len() {
        assert(p.take(k) =~= p);
    } else {
        let q = p.drop_last();
        assert(is_white_space(p[p.len() - 1]));
        assert forall|j: int| k <= j < q.len() implies is_white_space(#[trigger] q[j]) by {
            assert(q[j] == p[j]);
        }
        if k > 0 {
            assert(q[k - 1] == p[k - 1]);
        }
        lemma_trim_end(q, k);
        assert(q.take(k) =~= p.take(k));
    }
}

proof fn lemma_index_of(p: Seq<char>, c: char, k: int)
    requires
        0 <= k <= p.len(),
        forall|j: int| 0 <= j < k ==> #[trigger] p[j] != c,
        k == p.len() || p[k] == c,
    ensures
        index_of(p, c) == k,
    decreases k,
{
    if k > 0 {
        let q = p.drop_first();
        assert forall|j: int| 0 <= j < k - 1 implies #[trigger] q[j] != c by {
            assert(q[j] == p[j + 1]);
        }
        if k - 1 < q.len() {
            assert(q[k - 1] == p[k]);
        }
        lemma_index_of(q, c, k - 1);
    }
}

proof fn lemma_split_nonempty(s: Seq<char>)
    ensures
        split_commas(s).len() >= 1,
    decreases s.len(),
{
    if s.len() > 0 {
        lemma_split_nonempty(s.drop_last());
    }
}

/// Earlier completed pieces stay as they are when the text grows.
proof fn lemma_split_prefix(s: Seq<char>, i: int, j: int)
    requires
        0 <= i <= j <= s.len(),
    ensures
        split_commas(s.take(j)).len() >= split_commas(s.take(i)).len(),
        split_commas(s.take(j)).take(split_commas(s.take(i)).len() - 1) == split_commas(s.take(i)).drop_last(),
    decreases j - i,
{
    let a = split_commas(s.take(i));
    lemma_split_nonempty(s.take(i));
    lemma_split_nonempty(s.take(j));
    if i == j {
        assert(a.take(a.len() - 1) =~= a.drop_last());
    } else {
        lemma_split_prefix(s, i, j - 1);
        let b = split_commas(s.take(j - 1));
        let c = split_commas(s.take(j));
        assert(s.take(j).drop_last() =~= s.take(j - 1));
        lemma_split_nonempty(s.take(j - 1));
        assert(c.take(a.len() - 1) =~= b.take(a.len() - 1));
    }
}

/// Once a part fails, the whole filter text fails with that part's error.
proof fn lemma_apply_parts_error(f: FilterView, ps: Seq<Seq<char>>, k: int)
    requires
        0 <= k <= ps.len(),
        apply_parts(f, ps.take(k)) is Err,
    ensures
        apply_parts(f, ps) == apply_parts(f, ps.take(k)),
    decreases ps.len() - k,
{
    if k < ps.len() {
        assert(ps.take(k + 1).drop_last() =~= ps.take(k));
        assert(apply_parts(f, ps.take(k + 1)) == apply_parts(f, ps.take(k)));
        lemma_apply_parts_error(f, ps, k + 1);
    } else {
        assert(ps.take(k) =~= ps);
    }
}

fn skip_white_forward(chars: &Vec<char>, a: usize, b: usize) -> (r: usize)
    requires
        a <= b <= chars@.len(),
    ensures
        a <= r <= b,
        forall|j: int| a <= j < r ==> is_white_space(#[trigger] chars@[j]),
        r < b ==> !is_white_space(chars@[r as int]),
{
    let mut r = a;
    while r < b && white_space(chars[r])
        invariant
            a <= r <= b <= chars@.len(),
            forall|j: int| a <= j < r ==> is_white_space(#[trigger] chars@[j]),
        decreases b - r,
    {
        r += 1;
    }
    r
}

fn skip_white_backward(chars: &Vec<char>, a: usize, b: usize) -> (r: usize)
    requires
        a <= b <= chars@.len(),
    ensures
        a <= r <= b,
        forall|j: int| r <= j < b ==> is_white_space(#[trigger] chars@[j]),
        r > a ==> !is_white_space(chars@[r - 1]),
{
    let mut r = b;
    while r > a && white_space(chars[r - 1])
        invariant
            a <= r <= b <= chars@.len(),
            forall|j: int| r <= j < b ==> is_white_space(#[trigger] chars@[j]),
        decreases r - a,
    {
        r -= 1;
    }
    r
}

fn find_char(chars: &Vec<char>, a: usize, b: usize, c: char) -> (r: usize)
    requires
        a <= b <= chars@.len(),
    ensures
        a <= r <= b,
        forall|j: int| a <= j < r ==> #[trigger] chars@[j] != c,
        r < b ==> chars@[r as int] == c,
{
    let mut r = a;
    while r < b && chars[r] != c
        invariant
            a <= r <= b <= chars@.len(),
            forall|j: int| a <= j < r ==> #[trigger] chars@[j] != c,
        decreases b - r,
    {
        r += 1;
    }
    r
}

fn message(prefix: &str, detail: &str) -> (r: String)
    ensures
        r@ == prefix@ + detail@,
{
    let mut m = String::from_str(prefix);
    m.append(detail);
    m
}

/// Applies the part `s[start..end]` (in chars) of a filter text to `filter`.
fn apply_part_text(filter: &mut Filter, s: &str, chars: &Vec<char>, start: usize, end: usize) -> (r: Result<(), String>)
    requires
        chars@ == s@,
        start <= end <= chars@.len(),
    ensures
        match apply_part(old(filter)@, s@.subrange(start as int, end as int)) {
            Ok(v) => r is Ok && final(filter)@ == v,
            Err(e) => r matches Err(m) && m@ == e,
        },
{
    let ghost part = s@.subrange(start as int, end as int);
    let a = skip_white_forward(chars, start, end);
    let b = skip_white_backward(chars, a, end);
    let ghost trimmed = s@.subrange(a as int, b as int);
    proof {
        lemma_trim_start(part, a - start);
        assert(part.skip(a - start) =~= s@.subrange(a as int, end as int));
        lemma_trim_end(s@.subrange(a as int, end as int), b - a);
        assert(s@.subrange(a as int, end as int).take(b - a) =~= trimmed);
        assert(trim(part) == trimmed);
    }
    let k = find_char(chars, a, b, '=');
    proof {
        lemma_index_of(trimmed, '=', k - a);
    }
    if k == b {
        return Err(message("Invalid filter part: ", s.substring_char(a, b)));
    }
    let key_str = s.substring_char(a, k);
    let value = s.substring_char(k + 1, b);
    assert(key_str@ =~= trimmed.take(k - a));
    assert(value@ =~= trimmed.skip(k - a + 1));
    let key = key_str.to_owned();
    if key == String::from_str("target") {
        match Target::new(value) {
            Ok(t) => {
                filter.target = Some(t);
                Ok(())
            },
            Err(e) => Err(message("Invalid regex: ", e.as_str())),
        }
    } else if key == String::from_str("errors_min") {
        match parse_u32(value) {
            Ok(v) => {
                filter.errors_min = Some(v);
                Ok(())
            },
            Err(e) => Err(message("Invalid number for errors_min: ", e.as_str())),
        }
    } else if key == String::from_str("errors_max") {
        match parse_u32(value) {
            Ok(v) => {
                filter.errors_max = Some(v);
                Ok(())
            },
            Err(e) => Err(message("Invalid number for errors_max: ", e.as_str())),
        }
    } else if key == String::from_str("duration_min") {
        match parse_u64(value) {
            Ok(v) => {
                filter.duration_min = Some(v);
                Ok(())
            },
            Err(e) => Err(message("Invalid number for duration_min: ", e.as_str())),
        }
    } else if key == String::from_str("duration_max") {
        match parse_u64(value) {
            Ok(v) => {
                filter.duration_max = Some(v);
                Ok(())
            },
            Err(e) => Err(message("Invalid number for duration_max: ", e.as_str())),
        }
    } else {
        Err(message("Unknown filter keyword: ", key_str))
    }
}

impl Filter {
    /// Parses a filter text: comma-separated `key=value` parts with the keys
    /// `target` (a regex), `errors_min`, `errors_max` (u32), `duration_min`
    /// and `duration_max` (u64). A later part overrides an earlier one with
    /// the same key; the first malformed part decides the error message.
    pub fn parse(s: &str) -> (r: Result<Filter, String>)
        ensures
            match parse_filter(s@) {
                Ok(v) => r matches Ok(f) && f@ == v,
                Err(e) => r matches Err(m) && m@ == e,
            },
    {
        let chars = chars_of(s);
        let n = chars.len();
        let mut filter = Filter::default();
        let mut start: usize = 0;
        let mut i: usize = 0;
        let ghost mut done: Seq<Seq<char>> = Seq::empty();
        assert(s@.take(0) =~= Seq::<char>::empty());
        assert(s@.subrange(0, 0) =~= Seq::<char>::empty());
        assert(split_commas(s@.take(0)) =~= done.push(s@.subrange(0, 0)));
        while i < n
            invariant
                chars@ == s@,
                n == s@.len(),
                start <= i <= n,
                split_commas(s@.take(i as int)) == done.push(s@.subrange(start as int, i as int)),
                apply_parts(empty_filter(), done) == Ok::<FilterView, Seq<char>>(filter@),
            decreases n - i,
        {
            let ghost part = s@.subrange(start as int, i as int);
            assert(s@.take(i + 1).drop_last() =~= s@.take(i as int));
            assert(s@.take(i + 1).last() == s@[i as int]);
            if chars[i] == ',' {
                let step = apply_part_text(&mut filter, s, &chars, start, i);
                proof {
                    let next = done.push(part);
                    assert(split_commas(s@.take(i + 1)) == next.push(Seq::<char>::empty()));
                    assert(next.push(Seq::<char>::empty()).drop_last() =~= next);
                    assert(next.drop_last() =~= done);
                }
                match step {
                    Ok(()) => {},
                    Err(e) => {
                        proof {
                            let next = done.push(part);
                            lemma_split_prefix(s@, i + 1, n as int);
                            assert(s@.take(n as int) =~= s@);
                            let all = split_commas(s@);
                            assert(all.take(next.len() as int) =~= next);
                            lemma_apply_parts_error(empty_filter(), all, next.len() as int);
                        }
                        return Err(e);
                    },
                }
                proof {
                    done = done.push(part);
                    assert(s@.subrange(i + 1, i + 1) =~= Seq::<char>::empty());
                }
                start = i + 1;
            } else {
                proof {
                    assert(s@.subrange(start as int, i + 1) =~= part.push(s@[i as int]));
                    assert(done.push(part).update(done.len() as int, part.push(s@[i as int])) =~= done.push(
                        s@.subrange(start as int, i + 1),
                    ));
                }
            }
            i += 1;
        }
        let ghost last = s@.subrange(start as int, n as int);
        let step = apply_part_text(&mut filter, s, &chars, start, n);
        proof {
            assert(s@.take(n as int) =~= s@);
            assert(done.push(last).drop_last() =~= done);
        }
        match step {
            Ok(()) => Ok(filter),
            Err(e) => Err(e),
        }
    }
}

impl core::str::FromStr for Filter {
    type Err = String;

    fn from_str(s: &str) -> (r: Result<Self, Self::Err>)
        ensures
            match parse_filter(s@) {
                Ok(v) => r matches Ok(f) && f@ == v,
                Err(e) => r matches Err(m) && m@ == e,
            },
    {
        Filter::parse(s)
    }
}

/// The frames of `frames` whose symbol name the pattern matches, in order.
pub open spec fn select_matching(frames: Seq<Frame>, pattern: Seq<char>) -> Seq<Frame>
    decreases frames.len(),
{
    if frames.len() == 0 {
        Seq::empty()
    } else {
        let rest = select_matching(frames.drop_last(), pattern);
        if regex_matches(pattern, frames.last().spec_symbol().name@) {
            rest.push(frames.last())
        } else {
            rest
        }
    }
}

/// The frames a filter examines: every frame of the call tree (in pre-order)
/// whose symbol name the target matches, or, without a target, the root
/// frame alone (no frame below the root can equal the root).
pub open spec fn examined_frames(trace: Trace, target: Option<Seq<char>>) -> Seq<Frame> {
    match target {
        Some(p) => select_matching(preorder(trace.spec_root()), p),
        None => seq![trace.spec_root()],
    }
}

/// The occurrences of the trace's data-collection errors (none when the
/// trace has no such event).
pub open spec fn error_occurrences(trace: Trace) -> Seq<Metrics> {
    match find_event(trace.spec_events(), TraceError::DataCollectionError.spec_id()) {
        Some(e) => e.spec_occurences(),
        None => Seq::empty(),
    }
}

/// The first frame, in order, whose range ends after the error.
pub open spec fn consuming_frame(frames: Seq<Frame>, e: Metrics) -> Option<int>
    decreases frames.len(),
{
    if frames.len() == 0 {
        None
    } else if e.ts < frames[0].spec_metrics().spec_end().ts {
        Some(0)
    } else {
        match consuming_frame(frames.drop_first(), e) {
            Some(j) => Some(j + 1),
            None => None,
        }
    }
}

/// An error counts when it lies inside the first frame that ends after it.
pub open spec fn is_counted(frames: Seq<Frame>, e: Metrics) -> bool {
    match consuming_frame(frames, e) {
        Some(j) => e.ts >= frames[j].spec_metrics().spec_start().ts,
        None => false,
    }
}

/// How many of the errors count against the examined frames.
pub open spec fn error_count(frames: Seq<Frame>, errors: Seq<Metrics>) -> nat
    decreases errors.len(),
{
    if errors.len() == 0 {
        0
    } else {
        error_count(frames, errors.drop_last()) + if is_counted(frames, errors.last()) {
            1nat
        } else {
            0nat
        }
    }
}

/// Every examined frame's duration lies within the filter's bounds.
pub open spec fn durations_ok(frames: Seq<Frame>, f: FilterView) -> bool {
    forall|i: int|
        0 <= i < frames.len() ==> {
            &&& (f.duration_min matches Some(m) ==> (#[trigger] frames[i]).spec_metrics().spec_total_time() >= m)
            &&& (f.duration_max matches Some(m) ==> frames[i].spec_metrics().spec_total_time() <= m)
        }
}

/// The filter keeps the trace.
pub open spec fn keeps(trace: Trace, f: FilterView) -> bool {
    let frames = examined_frames(trace, f.target);
    let n = error_count(frames, error_occurrences(trace));
    &&& durations_ok(frames, f)
    &&& (f.errors_min matches Some(m) ==> n >= m)
    &&& (f.errors_max matches Some(m) ==> n <= m)
}

/// A filter keeps a trace exactly when every examined frame's duration, the
/// time from its range's start timestamp to its end timestamp, lies within
/// the duration bounds, and the errors counted against those frames lie
/// within the error bounds. Cycles and instructions play no part.
pub proof fn lemma_keeps_by_elapsed_time(trace: Trace, f: FilterView)
    ensures
        keeps(trace, f) <==> ({
            let frames = examined_frames(trace, f.target);
            let n = error_count(frames, error_occurrences(trace));
            &&& forall|i: int|
                0 <= i < frames.len() ==> {
                    let m = (#[trigger] frames[i]).spec_metrics();
                    &&& (f.duration_min matches Some(lo) ==> lo <= m.spec_end().ts - m.spec_start().ts)
                    &&& (f.duration_max matches Some(hi) ==> m.spec_end().ts - m.spec_start().ts <= hi)
                }
            &&& (f.errors_min matches Some(lo) ==> lo <= n)
            &&& (f.errors_max matches Some(hi) ==> n <= hi)
        }),
{
}

/// Without a target and without error bounds, a filter keeps a trace exactly
/// when its root frame's duration (end timestamp less start timestamp) lies
/// within the duration bounds.
pub proof fn lemma_root_duration_decides(trace: Trace, f: FilterView)
    requires
        f.target is None,
        f.errors_min is None,
        f.errors_max is None,
    ensures
        ({
            let m = trace.spec_root().spec_metrics();
            let elapsed = m.spec_end().ts - m.spec_start().ts;
            keeps(trace, f) <==> ((f.duration_min matches Some(lo) ==> lo <= elapsed) && (
            f.duration_max matches Some(hi) ==> elapsed <= hi))
        }),
{
    let frames = examined_frames(trace, f.target);
    assert(frames =~= seq![trace.spec_root()]);
    assert(frames[0] == trace.spec_root());
}

/// The traces of `traces` that the filter keeps, in order.
pub open spec fn kept(traces: Seq<Trace>, f: FilterView) -> Seq<Trace>
    decreases traces.len(),
{
    if traces.len() == 0 {
        Seq::empty()
    } else {
        let rest = kept(traces.drop_last(), f);
        if keeps(traces.last(), f) {
            rest.push(traces.last())
        } else {
            rest
        }
    }
}

/// A trace the filter can be applied to: well formed, with no more error
/// occurrences than the `u32` error counter can count.
pub open spec fn filterable(trace: Trace) -> bool {
    &&& trace.wf()
    &&& error_occurrences(trace).len() <= u32::MAX
}

proof fn lemma_error_count_le_len(frames: Seq<Frame>, errors: Seq<Metrics>)
    ensures
        error_count(frames, errors) <= errors.len(),
    decreases errors.len(),
{
    if errors.len() > 0 {
        lemma_error_count_le_len(frames, errors.drop_last());
    }
}

proof fn lemma_consuming_frame(frames: Seq<Frame>, e: Metrics, j: int)
    requires
        0 <= j < frames.len(),
        forall|k: int| 0 <= k < j ==> e.ts >= (#[trigger] frames[k]).spec_metrics().spec_end().ts,
        e.ts < frames[j].spec_metrics().spec_end().ts,
    ensures
        consuming_frame(frames, e) == Some(j),
    decreases j,
{
    if j > 0 {
        let rest = frames.drop_first();
        assert forall|k: int| 0 <= k < j - 1 implies e.ts >= (#[trigger] rest[k]).spec_metrics().spec_end().ts by {
            assert(rest[k] == frames[k + 1]);
        }
        assert(rest[j - 1] == frames[j]);
        lemma_consuming_frame(rest, e, j - 1);
    }
}

proof fn lemma_not_consumed(frames: Seq<Frame>, e: Metrics)
    requires
        forall|k: int| 0 <= k < frames.len() ==> e.ts >= (#[trigger] frames[k]).spec_metrics().spec_end().ts,
    ensures
        consuming_frame(frames, e) is None,
    decreases frames.len(),
{
    if frames.len() > 0 {
        let rest = frames.drop_first();
        assert forall|k: int| 0 <= k < rest.len() implies e.ts >= (#[trigger] rest[k]).spec_metrics().spec_end().ts by {
            assert(rest[k] == frames[k + 1]);
        }
        assert(e.ts >= frames[0].spec_metrics().spec_end().ts);
        lemma_not_consumed(rest, e);
    }
}

proof fn lemma_error_count_prefix(frames: Seq<Frame>, errors: Seq<Metrics>, k: int)
    requires
        0 <= k <= errors.len(),
    ensures
        error_count(frames, errors.take(k)) <= error_count(frames, errors),
    decreases errors.len() - k,
{
    if k < errors.len() {
        lemma_error_count_prefix(frames, errors, k + 1);
        assert(errors.take(k + 1).drop_last() =~= errors.take(k));
    } else {
        assert(errors.take(k) =~= errors);
    }
}

proof fn lemma_error_count_rest(frames: Seq<Frame>, errors: Seq<Metrics>, k: int)
    requires
        0 <= k <= errors.len(),
        forall|m: int| k <= m < errors.len() ==> !is_counted(frames, #[trigger] errors[m]),
    ensures
        error_count(frames, errors) == error_count(frames, errors.take(k)),
    decreases errors.len() - k,
{
    if k < errors.len() {
        assert(errors.take(k + 1).drop_last() =~= errors.take(k));
        assert(errors.take(k + 1).last() == errors[k]);
        lemma_error_count_rest(frames, errors, k + 1);
    } else {
        assert(errors.take(k) =~= errors);
    }
}

/// The examined frames of a trace.
fn examined<'a>(trace: &'a Trace, filter: &Filter) -> (r: Vec<&'a Frame>)
    ensures
        r@.map_values(|g: &Frame| *g) == examined_frames(*trace, filter@.target),
{
    match &filter.target {
        None => {
            let mut v: Vec<&Frame> = Vec::new();
            v.push(trace.root_frame());
            assert(v@.map_values(|g: &Frame| *g) =~= seq![trace.spec_root()]);
            v
        },
        Some(t) => {
            let all = trace.root_frame().preorder();
            let ghost all_frames = all@.map_values(|g: &Frame| *g);
            let mut v: Vec<&Frame> = Vec::new();
            let n = all.len();
            let mut i: usize = 0;
            while i < n
                invariant
                    n == all@.len(),
                    i <= n,
                    all_frames == all@.map_values(|g: &Frame| *g),
                    v@.map_values(|g: &Frame| *g) == select_matching(all_frames.take(i as int), t.spec_pattern()),
                decreases n - i,
            {
                let f = all[i];
                assert(all_frames.take(i + 1).drop_last() =~= all_frames.take(i as int));
                assert(all_frames.take(i + 1).last() == *f);
                if t.is_match(f.symbol().name.as_str()) {
                    v.push(f);
                }
                assert(v@.map_values(|g: &Frame| *g) =~= select_matching(all_frames.take(i + 1), t.spec_pattern()));
                i += 1;
            }
            assert(all_frames.take(n as int) =~= all_frames);
            v
        },
    }
}

/// Whether the filter keeps the trace.
pub fn trace_kept(trace: &Trace, filter: &Filter) -> (r: bool)
    requires
        filterable(*trace),
    ensures
        r == keeps(*trace, filter@),
{
    let frames = examined(trace, filter);
    let ghost fs = frames@.map_values(|g: &Frame| *g);
    let error_event = trace.get_event(TraceError::DataCollectionError.id());
    let empty: Vec<Metrics> = Vec::new();
    let errors: &[Metrics] = match error_event {
        Some(e) => e.occurences(),
        None => empty.as_slice(),
    };
    proof {
        match find_event(trace.spec_events(), TraceError::DataCollectionError.spec_id()) {
            Some(e) => {
                lemma_find_event_in(trace.spec_events(), TraceError::DataCollectionError.spec_id());
            },
            None => {},
        }
        lemma_examined_wf(*trace, filter@.target);
    }
    let ghost es = errors@;
    assert(es == error_occurrences(*trace));
    proof {
        lemma_error_count_le_len(fs, es);
    }
    assert(sorted_by_ts(es));
    let mut num_errors: u32 = 0;
    let mut error_index: usize = 0;
    let n = frames.len();
    let ne = errors.len();
    let mut j: usize = 0;
    while j < n
        invariant
            n == fs.len(),
            fs == frames@.map_values(|g: &Frame| *g),
            fs == examined_frames(*trace, filter@.target),
            forall|i: int| 0 <= i < fs.len() ==> (#[trigger] fs[i]).spec_metrics().wf(),
            ne == es.len(),
            es == errors@,
            sorted_by_ts(es),
            error_count(fs, es) <= u32::MAX,
            j <= n,
            error_index <= ne,
            forall|i: int| 0 <= i < j ==> {
                &&& (filter@.duration_min matches Some(m) ==> (#[trigger] fs[i]).spec_metrics().spec_total_time() >= m)
                &&& (filter@.duration_max matches Some(m) ==> fs[i].spec_metrics().spec_total_time() <= m)
            },
            forall|m: int, k: int|
                error_index <= m < ne && 0 <= k < j ==> (#[trigger] es[m]).ts >= (#[trigger] fs[k]).spec_metrics().spec_end().ts,
            num_errors == error_count(fs, es.take(error_index as int)),
        decreases n - j,
    {
        let frame = frames[j];
        assert(*frame == fs[j as int]);
        let total = frame.metrics().total_time();
        if let Some(duration_min) = filter.duration_min {
            if total < duration_min {
                return false;
            }
        }
        if let Some(duration_max) = filter.duration_max {
            if total > duration_max {
                return false;
            }
        }
        let start = frame.metrics().start();
        let end = frame.metrics().end();
        while error_index < ne && errors[error_index] < end
            invariant
                n == fs.len(),
                j < n,
                fs[j as int].spec_metrics().spec_end() == end,
                fs[j as int].spec_metrics().spec_start() == start,
                ne == es.len(),
                es == errors@,
                sorted_by_ts(es),
                error_count(fs, es) <= u32::MAX,
                error_index <= ne,
                forall|m: int, k: int|
                    error_index <= m < ne && 0 <= k < j ==> (#[trigger] es[m]).ts >= (#[trigger] fs[k]).spec_metrics().spec_end().ts,
                num_errors == error_count(fs, es.take(error_index as int)),
            decreases ne - error_index,
        {
            let ghost e = es[error_index as int];
            proof {
                assert forall|k: int| 0 <= k < j implies e.ts >= (#[trigger] fs[k]).spec_metrics().spec_end().ts by {}
                lemma_consuming_frame(fs, e, j as int);
                assert(es.take(error_index + 1).drop_last() =~= es.take(error_index as int));
                assert(es.take(error_index + 1).last() == e);
                lemma_error_count_prefix(fs, es, error_index + 1);
            }
            if errors[error_index] >= start {
                num_errors += 1;
            }
            error_index += 1;
        }
        proof {
            assert forall|m: int, k: int|
                error_index <= m < ne && 0 <= k < j + 1 implies (#[trigger] es[m]).ts >= (
            #[trigger] fs[k]).spec_metrics().spec_end().ts by {
                if k == j {
                    assert(es[error_index as int].ts <= es[m].ts);
                }
            }
        }
        j += 1;
    }
    proof {
        assert forall|m: int| error_index <= m < ne implies !is_counted(fs, #[trigger] es[m]) by {
            lemma_not_consumed(fs, es[m]);
        }
        lemma_error_count_rest(fs, es, error_index as int);
    }
    if let Some(errors_min) = filter.errors_min {
        if num_errors < errors_min {
            return false;
        }
    }
    if let Some(errors_max) = filter.errors_max {
        if num_errors > errors_max {
            return false;
        }
    }
    true
}

proof fn lemma_find_event_in(events: Seq<Event>, id: u32)
    requires
        find_event(events, id) is Some,
    ensures
        exists|i: int| 0 <= i < events.len() && events[i] == find_event(events, id)->0,
    decreases events.len(),
{
    if events[0].spec_id() != id {
        lemma_find_event_in(events.drop_first(), id);
        let i = choose|i: int| 0 <= i < events.len() - 1 && events.drop_first()[i] == find_event(events, id)->0;
        assert(events[i + 1] == events.drop_first()[i]);
    }
}

proof fn lemma_select_matching_in(frames: Seq<Frame>, p: Seq<char>, i: int)
    requires
        0 <= i < select_matching(frames, p).len(),
    ensures
        exists|k: int| 0 <= k < frames.len() && frames[k] == select_matching(frames, p)[i],
    decreases frames.len(),
{
    let rest = select_matching(frames.drop_last(), p);
    if i < rest.len() {
        lemma_select_matching_in(frames.drop_last(), p, i);
        let k = choose|k: int| 0 <= k < frames.drop_last().len() && frames.drop_last()[k] == rest[i];
        assert(frames[k] == frames.drop_last()[k]);
    } else {
        assert(frames[frames.len() - 1] == select_matching(frames, p)[i]);
    }
}

proof fn lemma_examined_wf(trace: Trace, target: Option<Seq<char>>)
    requires
        trace.wf(),
    ensures
        forall|i: int|
            0 <= i < examined_frames(trace, target).len() ==> (#[trigger] examined_frames(trace, target)[i]).spec_metrics().wf(),
{
    lemma_preorder_first(trace.spec_root());
    lemma_deep_wf_preorder(trace.spec_root());
    assert(preorder(trace.spec_root())[0] == trace.spec_root());
    match target {
        Some(p) => {
            assert forall|i: int| 0 <= i < examined_frames(trace, target).len() implies (
            #[trigger] examined_frames(trace, target)[i]).spec_metrics().wf() by {
                lemma_select_matching_in(preorder(trace.spec_root()), p, i);
            }
        },
        None => {},
    }
}

/// The traces that the filter keeps, in their order.
pub fn filter_traces(traces: Vec<Trace>, filter: &Filter) -> (r: Vec<Trace>)
    requires
        forall|i: int| 0 <= i < traces@.len() ==> filterable(#[trigger] traces@[i]),
    ensures
        r@ == kept(traces@, filter@),
{
    let n = traces.len();
    let mut flags: Vec<bool> = Vec::new();
    let mut i: usize = 0;
    while i < n
        invariant
            n == traces@.len(),
            i <= n,
            flags@.len() == i,
            forall|i: int| 0 <= i < traces@.len() ==> filterable(#[trigger] traces@[i]),
            forall|k: int| 0 <= k < i ==> flags@[k] == keeps(#[trigger] traces@[k], filter@),
        decreases n - i,
    {
        let keep = trace_kept(&traces[i], filter);
        flags.push(keep);
        i += 1;
    }
    let ghost orig = traces@;
    let mut traces = traces;
    let mut reversed: Vec<Trace> = Vec::new();
    while traces.len() > 0
        invariant
            traces@.len() + reversed@.len() == n,
            n == orig.len(),
            traces@ == orig.take(traces@.len() as int),
            forall|k: int| 0 <= k < reversed@.len() ==> #[trigger] reversed@[k] == orig[n - 1 - k],
        decreases traces@.len(),
    {
        let t = traces.pop().unwrap();
        reversed.push(t);
        assert(traces@ =~= orig.take(traces@.len() as int));
    }
    let mut out: Vec<Trace> = Vec::new();
    let mut k: usize = 0;
    assert(orig.take(0) =~= Seq::<Trace>::empty());
    while k < n
        invariant
            n == orig.len(),
            flags@.len() == n,
            forall|m: int| 0 <= m < n ==> flags@[m] == keeps(#[trigger] orig[m], filter@),
            k <= n,
            reversed@.len() == n - k,
            forall|m: int| 0 <= m < reversed@.len() ==> #[trigger] reversed@[m] == orig[n - 1 - m],
            out@ == kept(orig.take(k as int), filter@),
        decreases n - k,
    {
        let t = reversed.pop().unwrap();
        assert(t == orig[k as int]);
        assert(orig.take(k + 1).drop_last() =~= orig.take(k as int));
        assert(orig.take(k + 1).last() == orig[k as int]);
        if flags[k] {
            out.push(t);
        }
        k += 1;
    }
    assert(orig.take(n as int) =~= orig);
    out
}

} // verus!
