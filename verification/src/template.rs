//! Destination-template expansion. A template is literal text with variables
//! in braces; a variable name is made of ASCII letters, digits and
//! underscores. Unterminated braces and unknown variables are configuration
//! errors. Date variables come from one clock reading that the planner
//! threads through a whole plan generation.

use vstd::prelude::*;
use crate::error::FileMoverError;
use crate::rule::Rule;
use crate::num::{spec_dec, spec_dec_pad, u64_to_dec_chars, u64_to_dec_chars_pad};
use crate::path::{
    spec_first_component, spec_last_segment, spec_parent, spec_depth, spec_extension, spec_join,
    first_component, last_segment, parent_path, path_depth, stem_and_extension, join_path,
};
use crate::text::{str_to_chars, chars_to_string, char_from_code};

verus! {

/// One reading of the UTC calendar clock.
#[derive(Debug, Clone, Copy, PartialEq, Eq, Structural)]
pub struct PlanDate {
    pub year: u64,
    pub month: u64,
    pub day: u64,
}

impl PlanDate {
    pub open spec fn valid(self) -> bool {
        self.year <= 9999 && 1 <= self.month <= 12 && 1 <= self.day <= 31
    }

    /// Builds a date, clamping each component into its calendar range.
    pub fn clamped(year: u64, month: u64, day: u64) -> (d: PlanDate)
        ensures
            d.valid(),
            year <= 9999 && 1 <= month <= 12 && 1 <= day <= 31 ==> d == (PlanDate {
                year,
                month,
                day,
            }),
    {
        PlanDate {
            year: if year > 9999 {
                9999
            } else {
                year
            },
            month: if month < 1 {
                1
            } else if month > 12 {
                12
            } else {
                month
            },
            day: if day < 1 {
                1
            } else if day > 31 {
                31
            } else {
                day
            },
        }
    }

    /// The current UTC date.
    pub fn now() -> (d: PlanDate)
        ensures
            d.valid(),
    {
        let (y, m, dd) = current_utc_ymd();
        let year: u64 = if y < 0 {
            0
        } else if y > 9999 {
            9999
        } else {
            y as u64
        };
        PlanDate::clamped(year, m as u64, dd as u64)
    }
}

/// Relies on `chrono::DateTime::from_timestamp` and the `Datelike`
/// accessors: the month lies in 1 to 12 and the day in 1 to 31. The clock is
/// read through `SystemTime`, falling back to the epoch when the system
/// clock precedes it or overflows the calendar, so no reading panics.
#[verifier::external_body]
fn current_utc_ymd() -> (r: (i32, u32, u32))
    ensures
        1 <= r.1 <= 12,
        1 <= r.2 <= 31,
{
    let secs: i64 = std::time::SystemTime::now()
        .duration_since(std::time::UNIX_EPOCH)
        .map(|d| d.as_secs() as i64)
        .unwrap_or(0);
    let now = chrono::DateTime::<chrono::Utc>::from_timestamp(secs, 0).unwrap_or_default();
    (chrono::Datelike::year(&now), chrono::Datelike::month(&now), chrono::Datelike::day(&now))
}

/// An upper-case ASCII letter for a lower-case one.
pub open spec fn upper_char(c: char) -> char {
    if 'a' <= c && c <= 'z' {
        ((c as u32 - 0x20) as u32) as char
    } else {
        c
    }
}

/// The drive letter of a path: the first character of its leading segment,
/// upper-cased, when that segment is a volume prefix; empty otherwise.
pub open spec fn spec_drive(p: Seq<char>) -> Seq<char> {
    let fc = spec_first_component(p);
    if fc.len() >= 2 && fc[fc.len() - 1] == ':' {
        seq![upper_char(fc[0])]
    } else {
        Seq::empty()
    }
}

/// A character allowed in a template variable name.
pub open spec fn valid_var_char(c: char) -> bool {
    ('0' <= c && c <= '9') || ('a' <= c && c <= 'z') || ('A' <= c && c <= 'Z') || c == '_'
}

/// Index of the brace closing a variable that starts at `j`; `None` when the
/// template ends first or holds a character no variable name may contain.
pub open spec fn scan_var(t: Seq<char>, j: int) -> Option<int>
    decreases t.len() - j,
{
    if j < 0 || j >= t.len() {
        None
    } else if t[j] == '}' {
        Some(j)
    } else if valid_var_char(t[j]) {
        scan_var(t, j + 1)
    } else {
        None
    }
}

/// A closing-brace index lies between `j` and the end of the template, and
/// everything before it is a name character.
pub proof fn lemma_scan_var(t: Seq<char>, j: int)
    ensures
        match scan_var(t, j) {
            None => true,
            Some(k) => j <= k < t.len() && t[k] == '}' && forall|m: int|
                j <= m < k ==> valid_var_char(#[trigger] t[m]) && t[m] != '}',
        },
    decreases t.len() - j,
{
    if 0 <= j < t.len() && t[j] != '}' && valid_var_char(t[j]) {
        lemma_scan_var(t, j + 1);
    }
}

/// The value of a template variable, or `None` for an unknown name. `lbl` is
/// the rule's label, `p` the source path, `d` the clock reading.
pub open spec fn spec_var_value(name: Seq<char>, lbl: Seq<char>, p: Seq<char>, d: PlanDate) -> Option<
    Seq<char>,
> {
    if name == "name"@ {
        Some(spec_last_segment(p))
    } else if name == "parent"@ {
        Some(spec_last_segment(spec_parent(p)))
    } else if name == "drive"@ {
        Some(spec_drive(p))
    } else if name == "depth"@ {
        Some(spec_dec(spec_depth(p) as nat))
    } else if name == "ext"@ {
        Some(
            match spec_extension(spec_last_segment(p)) {
                Option::None => Seq::empty(),
                Option::Some(e) => e,
            },
        )
    } else if name == "yyyy"@ {
        Some(spec_dec_pad(d.year as nat, 4))
    } else if name == "yy"@ {
        Some(spec_dec_pad((d.year % 100) as nat, 2))
    } else if name == "MM"@ {
        Some(spec_dec_pad(d.month as nat, 2))
    } else if name == "dd"@ {
        Some(spec_dec_pad(d.day as nat, 2))
    } else if name == "yyyyMM"@ {
        Some(spec_dec_pad(d.year as nat, 4) + spec_dec_pad(d.month as nat, 2))
    } else if name == "yyyyMMdd"@ {
        Some(
            spec_dec_pad(d.year as nat, 4) + spec_dec_pad(d.month as nat, 2) + spec_dec_pad(
                d.day as nat,
                2,
            ),
        )
    } else if name == "label"@ {
        Some(lbl)
    } else {
        None
    }
}

/// The template expanded from position `i` on: literal characters are kept,
/// each braced variable is replaced by its value; `None` on an unterminated
/// brace, an invalid name character, an empty name, or an unknown name.
pub open spec fn spec_expand_from(
    t: Seq<char>,
    i: int,
    lbl: Seq<char>,
    p: Seq<char>,
    d: PlanDate,
) -> Option<Seq<char>>
    decreases t.len() - i,
    via spec_expand_from_decreases
{
    if i < 0 || i >= t.len() {
        Some(Seq::empty())
    } else if t[i] == '{' {
        match scan_var(t, i + 1) {
            Option::None => None,
            Option::Some(k) => {
                let name = t.subrange(i + 1, k);
                if name.len() == 0 {
                    None
                } else {
                    match spec_var_value(name, lbl, p, d) {
                        Option::None => None,
                        Option::Some(val) => match spec_expand_from(t, k + 1, lbl, p, d) {
                            Option::None => None,
                            Option::Some(rest) => Some(val + rest),
                        },
                    }
                }
            },
        }
    } else {
        match spec_expand_from(t, i + 1, lbl, p, d) {
            Option::None => None,
            Option::Some(rest) => Some(seq![t[i]] + rest),
        }
    }
}

#[via_fn]
proof fn spec_expand_from_decreases(t: Seq<char>, i: int, lbl: Seq<char>, p: Seq<char>, d: PlanDate) {
    if 0 <= i < t.len() && t[i] == '{' {
        lemma_scan_var(t, i + 1);
    }
}

/// The variable names of a template, in order, collected over the same scan
/// as `spec_expand_from`.
pub open spec fn spec_template_names(t: Seq<char>, i: int) -> Seq<Seq<char>>
    decreases t.len() - i,
    via spec_template_names_decreases
{
    if i < 0 || i >= t.len() {
        Seq::empty()
    } else if t[i] == '{' {
        match scan_var(t, i + 1) {
            Option::None => Seq::empty(),
            Option::Some(k) => seq![t.subrange(i + 1, k)] + spec_template_names(t, k + 1),
        }
    } else {
        spec_template_names(t, i + 1)
    }
}

#[via_fn]
proof fn spec_template_names_decreases(t: Seq<char>, i: int) {
    if 0 <= i < t.len() && t[i] == '{' {
        lemma_scan_var(t, i + 1);
    }
}

/// The rule's label, or the empty text.
pub open spec fn label_view(l: Option<String>) -> Seq<char> {
    match l {
        Option::Some(s) => s@,
        Option::None => Seq::empty(),
    }
}

/// The fully expanded destination of a rule for a source path: its
/// destination root joined with the expanded template.
pub open spec fn spec_expand(rule: Rule, p: Seq<char>, d: PlanDate) -> Option<Seq<char>> {
    match spec_expand_from(rule.template@, 0, label_view(rule.label), p, d) {
        Option::None => None,
        Option::Some(e) => Some(spec_join(rule.dest_root@, e)),
    }
}

fn is_valid_var_char(c: char) -> (r: bool)
    ensures
        r == valid_var_char(c),
{
    ('0' <= c && c <= '9') || ('a' <= c && c <= 'z') || ('A' <= c && c <= 'Z') || c == '_'
}

/// The precomputed variable values of one (rule, path, date) triple.
struct TemplateVars {
    name: String,
    parent: String,
    drive: String,
    depth: String,
    ext: String,
    yyyy: String,
    yy: String,
    month2: String,
    day2: String,
    yyyymm: String,
    yyyymmdd: String,
    label: String,
}

impl TemplateVars {
    spec fn matches(&self, lbl: Seq<char>, p: Seq<char>, d: PlanDate) -> bool {
        &&& self.name@ == spec_last_segment(p)
        &&& self.parent@ == spec_last_segment(spec_parent(p))
        &&& self.drive@ == spec_drive(p)
        &&& self.depth@ == spec_dec(spec_depth(p) as nat)
        &&& self.ext@ == (match spec_extension(spec_last_segment(p)) {
            Option::None => Seq::<char>::empty(),
            Option::Some(e) => e,
        })
        &&& self.yyyy@ == spec_dec_pad(d.year as nat, 4)
        &&& self.yy@ == spec_dec_pad((d.year % 100) as nat, 2)
        &&& self.month2@ == spec_dec_pad(d.month as nat, 2)
        &&& self.day2@ == spec_dec_pad(d.day as nat, 2)
        &&& self.yyyymm@ == spec_dec_pad(d.year as nat, 4) + spec_dec_pad(d.month as nat, 2)
        &&& self.yyyymmdd@ == spec_dec_pad(d.year as nat, 4) + spec_dec_pad(d.month as nat, 2)
            + spec_dec_pad(d.day as nat, 2)
        &&& self.label@ == lbl
    }
}

fn make_vars(rule: &Rule, source_path: &str, d: PlanDate) -> (v: TemplateVars)
    ensures
        v.matches(label_view(rule.label), source_path@, d),
{
    let name = last_segment(source_path);
    let parent_dir = parent_path(source_path);
    let parent = last_segment(parent_dir.as_str());
    let drive = drive_letter(source_path);
    let depth_n = path_depth(source_path);
    let depth = chars_to_string(&u64_to_dec_chars(depth_n as u64));
    let ext = match stem_and_extension(name.as_str()).1 {
        Some(e) => e,
        None => String::new(),
    };
    let yyyy = chars_to_string(&u64_to_dec_chars_pad(d.year, 4));
    let yy = chars_to_string(&u64_to_dec_chars_pad(d.year % 100, 2));
    let month2 = chars_to_string(&u64_to_dec_chars_pad(d.month, 2));
    let day2 = chars_to_string(&u64_to_dec_chars_pad(d.day, 2));
    let yyyymm = yyyy.clone().concat(month2.as_str());
    let yyyymmdd = yyyymm.clone().concat(day2.as_str());
    let label = match &rule.label {
        Some(l) => l.clone(),
        None => String::new(),
    };
    TemplateVars {
        name,
        parent,
        drive,
        depth,
        ext,
        yyyy,
        yy,
        month2,
        day2,
        yyyymm,
        yyyymmdd,
        label,
    }
}

/// Looks a variable name up among the precomputed values.
fn lookup_var(vars: &TemplateVars, name: &str) -> (r: Option<String>)
    ensures
        forall|lbl: Seq<char>, p: Seq<char>, d: PlanDate|
            vars.matches(lbl, p, d) ==> (match #[trigger] spec_var_value(name@, lbl, p, d) {
                Option::None => r is None,
                Option::Some(val) => r is Some && r->0@ == val,
            }),
{
    if crate::text::eq_str(name, "name") {
        Some(vars.name.clone())
    } else if crate::text::eq_str(name, "parent") {
        Some(vars.parent.clone())
    } else if crate::text::eq_str(name, "drive") {
        Some(vars.drive.clone())
    } else if crate::text::eq_str(name, "depth") {
        Some(vars.depth.clone())
    } else if crate::text::eq_str(name, "ext") {
        Some(vars.ext.clone())
    } else if crate::text::eq_str(name, "yyyy") {
        Some(vars.yyyy.clone())
    } else if crate::text::eq_str(name, "yy") {
        Some(vars.yy.clone())
    } else if crate::text::eq_str(name, "MM") {
        Some(vars.month2.clone())
    } else if crate::text::eq_str(name, "dd") {
        Some(vars.day2.clone())
    } else if crate::text::eq_str(name, "yyyyMM") {
        Some(vars.yyyymm.clone())
    } else if crate::text::eq_str(name, "yyyyMMdd") {
        Some(vars.yyyymmdd.clone())
    } else if crate::text::eq_str(name, "label") {
        Some(vars.label.clone())
    } else {
        None
    }
}

/// The drive letter of a path, upper-cased; empty when the path has no
/// volume prefix.
pub fn drive_letter(path: &str) -> (r: String)
    ensures
        r@ == spec_drive(path@),
{
    let fc = first_component(path);
    let v = str_to_chars(fc.as_str());
    let n = v.len();
    let mut out: Vec<char> = Vec::new();
    if n >= 2 && v[n - 1] == ':' {
        let c = v[0];
        let up = if 'a' <= c && c <= 'z' {
            char_from_code(c as u32 - 0x20)
        } else {
            c
        };
        out.push(up);
        proof {
            assert(out@ =~= spec_drive(path@));
        }
    } else {
        proof {
            assert(out@ =~= spec_drive(path@));
        }
    }
    chars_to_string(&out)
}

/// Expands rule templates against source paths and a fixed clock reading.
pub struct TemplateEngine {}

impl TemplateEngine {
    pub fn new() -> (r: Self) {
        Self {  }
    }

    /// The drive letter of a path, upper-cased; empty when the path has no
    /// volume prefix.
    pub fn extract_drive_letter(&self, path: &str) -> (r: String)
        ensures
            r@ == spec_drive(path@),
    {
        drive_letter(path)
    }

    /// The name of the path's parent directory, or empty.
    pub fn extract_parent_name(&self, path: &str) -> (r: String)
        ensures
            r@ == spec_last_segment(spec_parent(path@)),
    {
        let parent_dir = parent_path(path);
        last_segment(parent_dir.as_str())
    }

    /// Expands the rule's template against the source path and the given
    /// clock reading, and joins the result onto the rule's destination root.
    /// Fails with a `Config` error exactly on a malformed template or an
    /// unknown variable.
    pub fn expand_template(&self, rule: &Rule, source_path: &str, date: PlanDate) -> (r: Result<
        String,
        FileMoverError,
    >)
        ensures
            r is Ok <==> spec_expand(*rule, source_path@, date) is Some,
            r is Ok ==> r->Ok_0@ == spec_expand(*rule, source_path@, date)->0,
            r is Err ==> r->Err_0 is Config,
    {
        let ghost lbl = label_view(rule.label);
        let ghost t = rule.template@;
        let vars = make_vars(rule, source_path, date);
        let tv = str_to_chars(rule.template.as_str());
        let n = tv.len();
        let mut out: Vec<char> = Vec::new();
        let mut i: usize = 0;
        while i < n
            invariant
                i <= n,
                n == t.len(),
                tv@ == t,
                t == rule.template@,
                lbl == label_view(rule.label),
                vars.matches(lbl, source_path@, date),
                spec_expand_from(t, 0, lbl, source_path@, date) is Some <==> spec_expand_from(
                    t,
                    i as int,
                    lbl,
                    source_path@,
                    date,
                ) is Some,
                spec_expand_from(t, i as int, lbl, source_path@, date) is Some
                    ==> spec_expand_from(t, 0, lbl, source_path@, date)->0 == out@
                    + spec_expand_from(t, i as int, lbl, source_path@, date)->0,
            decreases n - i,
        {
            let c = tv[i];
            if c != '{' {
                out.push(c);
                proof {
                    let rest = spec_expand_from(t, i + 1, lbl, source_path@, date);
                    if rest is Some {
                        assert(out@ + rest->0 =~= out@.drop_last() + (seq![t[i as int]]
                            + rest->0));
                    }
                }
                i = i + 1;
            } else {
                proof {
                    lemma_scan_var(t, i + 1);
                }
                let mut j = i + 1;
                let mut name: Vec<char> = Vec::new();
                loop
                    invariant_except_break
                        i + 1 <= j <= n,
                        name@ == t.subrange(i + 1, j as int),
                        scan_var(t, i + 1) == scan_var(t, j as int),
                    invariant
                        i < n,
                        n == t.len(),
                        tv@ == t,
                        t[i as int] == '{',
                        t == rule.template@,
                        lbl == label_view(rule.label),
                        spec_expand_from(t, 0, lbl, source_path@, date) is Some
                            <==> spec_expand_from(t, i as int, lbl, source_path@, date) is Some,
                    ensures
                        scan_var(t, i + 1) == Some(j as int),
                        name@ == t.subrange(i + 1, j as int),
                        j < n,
                        n == t.len(),
                        tv@ == t,
                    decreases n - j,
                {
                    if j >= n {
                        proof {
                            assert(scan_var(t, i + 1) is None);
                            assert(spec_expand_from(t, i as int, lbl, source_path@, date)
                                is None);
                        }
                        return Err(FileMoverError::Config {
                            message: "unterminated template variable".to_owned(),
                        });
                    }
                    let c2 = tv[j];
                    if c2 == '}' {
                        break;
                    }
                    if !is_valid_var_char(c2) {
                        proof {
                            assert(scan_var(t, j as int) is None);
                            assert(spec_expand_from(t, i as int, lbl, source_path@, date)
                                is None);
                        }
                        return Err(FileMoverError::Config {
                            message: "invalid character in template variable".to_owned(),
                        });
                    }
                    name.push(c2);
                    j = j + 1;
                    proof {
                        assert(name@ =~= t.subrange(i + 1, j as int));
                    }
                }
                if name.len() == 0 {
                    proof {
                        assert(spec_expand_from(t, i as int, lbl, source_path@, date) is None);
                    }
                    return Err(FileMoverError::Config {
                        message: "empty template variable".to_owned(),
                    });
                }
                let name_str = chars_to_string(&name);
                match lookup_var(&vars, name_str.as_str()) {
                    Some(val) => {
                        let vchars = str_to_chars(val.as_str());
                        let ghost out_before = out@;
                        let m = vchars.len();
                        let mut q: usize = 0;
                        while q < m
                            invariant
                                q <= m,
                                m == vchars@.len(),
                                out@ == out_before + vchars@.subrange(0, q as int),
                            decreases m - q,
                        {
                            out.push(vchars[q]);
                            q = q + 1;
                            proof {
                                assert(out@ =~= out_before + vchars@.subrange(0, q as int));
                            }
                        }
                        proof {
                            assert(out@ =~= out_before + vchars@);
                            let rest = spec_expand_from(t, j + 1, lbl, source_path@, date);
                            assert(spec_var_value(name@, lbl, source_path@, date) == Some(
                                vchars@,
                            ));
                            if rest is Some {
                                assert(out_before + (vchars@ + rest->0) =~= out@ + rest->0);
                            }
                        }
                        i = j + 1;
                    },
                    None => {
                        proof {
                            assert(spec_var_value(name@, lbl, source_path@, date) is None);
                            assert(spec_expand_from(t, i as int, lbl, source_path@, date)
                                is None);
                        }
                        return Err(FileMoverError::Config {
                            message: "unknown template variable".to_owned(),
                        });
                    },
                }
            }
        }
        proof {
            assert(spec_expand_from(t, n as int, lbl, source_path@, date) == Some(
                Seq::<char>::empty(),
            ));
            assert(out@ + Seq::<char>::empty() =~= out@);
        }
        let expanded = chars_to_string(&out);
        Ok(join_path(rule.dest_root.as_str(), expanded.as_str()))
    }

    /// Collects the variable names of a template, in order. Fails with a
    /// `Config` error exactly on a malformed template or an unknown name.
    pub fn validate_template(template: &str) -> (r: Result<Vec<String>, FileMoverError>)
        ensures
            r is Ok <==> spec_expand_from(
                template@,
                0,
                Seq::<char>::empty(),
                Seq::<char>::empty(),
                PlanDate { year: 0, month: 1, day: 1 },
            ) is Some,
            r is Ok ==> r->Ok_0.deep_view() == spec_template_names(template@, 0),
            r is Err ==> r->Err_0 is Config,
    {
        let ghost lbl = Seq::<char>::empty();
        let ghost p = Seq::<char>::empty();
        let ghost d = PlanDate { year: 0, month: 1, day: 1 };
        let engine = TemplateEngine::new();
        let dummy_rule = Rule::new(
            crate::pattern::PatternSpec::new_glob("*"),
            String::new(),
            template.to_owned(),
        );
        proof {
            reveal_strlit("");
            assert(""@ =~= Seq::<char>::empty());
        }
        let vars = make_vars(&dummy_rule, "", PlanDate { year: 0, month: 1, day: 1 });
        let tv = str_to_chars(template);
        let ghost t = template@;
        let n = tv.len();
        let mut names: Vec<String> = Vec::new();
        let mut i: usize = 0;
        while i < n
            invariant
                i <= n,
                n == t.len(),
                tv@ == t,
                t == template@,
                lbl == Seq::<char>::empty(),
                p == Seq::<char>::empty(),
                d == (PlanDate { year: 0, month: 1, day: 1 }),
                vars.matches(lbl, p, d),
                spec_expand_from(t, 0, lbl, p, d) is Some <==> spec_expand_from(
                    t,
                    i as int,
                    lbl,
                    p,
                    d,
                ) is Some,
                spec_expand_from(t, i as int, lbl, p, d) is Some ==> spec_template_names(t, 0)
                    == names.deep_view() + spec_template_names(t, i as int),
            decreases n - i,
        {
            let c = tv[i];
            if c != '{' {
                i = i + 1;
            } else {
                proof {
                    lemma_scan_var(t, i + 1);
                }
                let mut j = i + 1;
                let mut name: Vec<char> = Vec::new();
                loop
                    invariant_except_break
                        i + 1 <= j <= n,
                        name@ == t.subrange(i + 1, j as int),
                        scan_var(t, i + 1) == scan_var(t, j as int),
                    invariant
                        i < n,
                        n == t.len(),
                        tv@ == t,
                        t[i as int] == '{',
                        t == template@,
                        lbl == Seq::<char>::empty(),
                        p == Seq::<char>::empty(),
                        d == (PlanDate { year: 0, month: 1, day: 1 }),
                        spec_expand_from(t, 0, lbl, p, d) is Some <==> spec_expand_from(
                            t,
                            i as int,
                            lbl,
                            p,
                            d,
                        ) is Some,
                    ensures
                        scan_var(t, i + 1) == Some(j as int),
                        name@ == t.subrange(i + 1, j as int),
                        j < n,
                        n == t.len(),
                        tv@ == t,
                    decreases n - j,
                {
                    if j >= n {
                        proof {
                            assert(scan_var(t, i + 1) is None);
                            assert(spec_expand_from(t, i as int, lbl, p, d) is None);
                        }
                        return Err(FileMoverError::Config {
                            message: "unterminated template variable".to_owned(),
                        });
                    }
                    let c2 = tv[j];
                    if c2 == '}' {
                        break;
                    }
                    if !is_valid_var_char(c2) {
                        proof {
                            assert(scan_var(t, j as int) is None);
                            assert(spec_expand_from(t, i as int, lbl, p, d) is None);
                        }
                        return Err(FileMoverError::Config {
                            message: "invalid character in template variable".to_owned(),
                        });
                    }
                    name.push(c2);
                    j = j + 1;
                    proof {
                        assert(name@ =~= t.subrange(i + 1, j as int));
                    }
                }
                if name.len() == 0 {
                    proof {
                        assert(spec_expand_from(t, i as int, lbl, p, d) is None);
                    }
                    return Err(FileMoverError::Config {
                        message: "empty template variable".to_owned(),
                    });
                }
                let name_str = chars_to_string(&name);
                match lookup_var(&vars, name_str.as_str()) {
                    Some(_) => {
                        let ghost names_before = names.deep_view();
                        names.push(name_str);
                        proof {
                            assert(names.deep_view() =~= names_before + seq![name@]);
                            if spec_expand_from(t, j + 1, lbl, p, d) is Some {
                                assert(names_before + (seq![t.subrange(i + 1, j as int)]
                                    + spec_template_names(t, j + 1)) =~= names.deep_view()
                                    + spec_template_names(t, j + 1));
                            }
                        }
                        i = j + 1;
                    },
                    None => {
                        proof {
                            assert(spec_var_value(name@, lbl, p, d) is None);
                            assert(spec_expand_from(t, i as int, lbl, p, d) is None);
                        }
                        return Err(FileMoverError::Config {
                            message: "unknown template variable".to_owned(),
                        });
                    },
                }
            }
        }
        proof {
            assert(names.deep_view() + spec_template_names(t, n as int) =~= names.deep_view());
        }
        Ok(names)
    }
}

impl Default for TemplateEngine {
    fn default() -> Self {
        Self::new()
    }
}

} // verus!
