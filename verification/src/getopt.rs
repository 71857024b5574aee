//! Command line option parsing: short options from a list of letters, long
//! options from a table, with the portable runtime's rules for runs of
//! letters, inline and separate arguments, the `--` terminator and the
//! interleaving of options with other arguments.
//!
//! Arguments are read as bytes, as the portable runtime reads them; an
//! argument that a step hands back is turned into a string only when it is
//! one.

use vstd::prelude::*;
use vstd::std_specs::convert::FromSpecImpl;
use vstd::string::StringSliceAdditionalSpecFns;
use vstd::utf8::{decode_utf8, encode_utf8, valid_utf8};
use crate::base64::has_nul;
use crate::pool::Pool;
use crate::status::Status;
use crate::text::{
    bytes_from, bytes_prefix, c_string, find_byte, first_index, lemma_first_index_bounds, text_of,
};

verus! {

broadcast use vstd::utf8::encode_utf8_valid_utf8, vstd::utf8::encode_utf8_decode_utf8;

// ---------------------------------------------------------------------------
// Indicators
// ---------------------------------------------------------------------------

/// An indicator for a command line option.
#[derive(Debug, Clone, Copy, PartialEq, Eq, Structural)]
pub enum Indicator {
    /// A sentinel value.
    Sentinel,
    /// A single letter.
    Letter(char),
    /// An identifier.
    Identifier(i32),
}

/// The number that stands for an indicator in an option table: zero for
/// the sentinel, the character's code for a letter, and 255 past the
/// identifier for an identifier (wrapping, as machine arithmetic does).
pub open spec fn indicator_code(i: Indicator) -> i32 {
    match i {
        Indicator::Sentinel => 0,
        Indicator::Letter(c) => (c as u32) as i32,
        Indicator::Identifier(n) => n.wrapping_add(255),
    }
}

/// The indicator that a number stands for: zero is the sentinel, numbers
/// above 255 are identifiers, and any other number is the letter of its
/// low byte.
pub open spec fn indicator_of(v: i32) -> Indicator {
    if v == 0 {
        Indicator::Sentinel
    } else if v > 255 {
        Indicator::Identifier((v - 255) as i32)
    } else {
        Indicator::Letter((v as u8) as char)
    }
}

impl From<Indicator> for i32 {
    fn from(indicator: Indicator) -> (r: Self) {
        match indicator {
            Indicator::Sentinel => 0,
            Indicator::Letter(c) => (c as u32) as i32,
            Indicator::Identifier(i) => i.wrapping_add(255),
        }
    }
}

impl FromSpecImpl<Indicator> for i32 {
    open spec fn obeys_from_spec() -> bool {
        true
    }

    open spec fn from_spec(v: Indicator) -> Self {
        indicator_code(v)
    }
}

impl From<i32> for Indicator {
    fn from(indicator: i32) -> (r: Self) {
        if indicator == 0 {
            Indicator::Sentinel
        } else if indicator > 255 {
            Indicator::Identifier(indicator - 255)
        } else {
            Indicator::Letter((indicator as u8) as char)
        }
    }
}

impl FromSpecImpl<i32> for Indicator {
    open spec fn obeys_from_spec() -> bool {
        true
    }

    open spec fn from_spec(v: i32) -> Self {
        indicator_of(v)
    }
}

// ---------------------------------------------------------------------------
// The model of a parse
// ---------------------------------------------------------------------------

/// The state of a parse: the arguments as bytes, the index of the next
/// argument, the rest of a run of short options (empty between runs), and
/// the interleaving settings.
pub struct GetoptModel {
    pub argv: Seq<Seq<u8>>,
    pub ind: i32,
    pub place: Seq<u8>,
    pub interleave: bool,
    pub skip_start: i32,
    pub skip_end: i32,
}

/// What one step of parsing finds: an option (its number and its argument,
/// if it takes one), the end of the options, an option that is not allowed,
/// or an option whose argument is missing or not allowed.
pub enum Outcome {
    Found(int, std::option::Option<Seq<u8>>),
    End,
    BadChar(int),
    BadArgument(int),
}

/// One entry of a table of long options: its name as bytes, whether it
/// takes an argument, and the number it is reported by.
pub struct OptionModel {
    pub name: Seq<u8>,
    pub has_arg: bool,
    pub optch: i32,
}

/// Whether an argument starts with `-`.
pub open spec fn starts_option(a: Seq<u8>) -> bool {
    a.len() > 0 && a[0] == 45u8
}

/// The bytes of the allowed option characters: the low byte of each.
pub open spec fn letter_bytes(cs: Seq<char>) -> Seq<u8> {
    Seq::new(cs.len(), |i: int| (cs[i] as u32) as u8)
}

/// A byte read as a signed C `char`.
pub open spec fn signed_byte(c: u8) -> int {
    if c < 128 {
        c as int
    } else {
        c - 256
    }
}

/// One short option from the run `p` against the letter list `o`: a letter
/// followed by `:` in the list takes an argument, either the rest of the run
/// or the next argument.
pub open spec fn letter_step(m: GetoptModel, o: Seq<u8>, p: Seq<u8>) -> (GetoptModel, Outcome) {
    let c = p[0];
    let rest = p.skip(1);
    let k = first_index(o, c);
    let next_ind = if rest.len() == 0 {
        (m.ind + 1) as i32
    } else {
        m.ind
    };
    if c == 58u8 || k >= o.len() {
        if c == 45u8 {
            (GetoptModel { place: rest, ..m }, Outcome::End)
        } else {
            (GetoptModel { place: rest, ind: next_ind, ..m }, Outcome::BadChar(c as int))
        }
    } else if !(k + 1 < o.len() && o[k + 1] == 58u8) {
        (GetoptModel { place: rest, ind: next_ind, ..m }, Outcome::Found(c as int, None))
    } else if rest.len() > 0 {
        (
            GetoptModel { place: Seq::empty(), ind: (m.ind + 1) as i32, ..m },
            Outcome::Found(c as int, Some(rest)),
        )
    } else if m.argv.len() <= m.ind + 1 {
        (
            GetoptModel { place: Seq::empty(), ind: (m.ind + 1) as i32, ..m },
            if o.len() > 0 && o[0] == 58u8 {
                Outcome::BadArgument(c as int)
            } else {
                Outcome::BadChar(c as int)
            },
        )
    } else {
        (
            GetoptModel { place: Seq::empty(), ind: (m.ind + 2) as i32, ..m },
            Outcome::Found(c as int, Some(m.argv[m.ind + 1])),
        )
    }
}

/// One step of short option parsing with the letter list `opts` (read up to
/// its first NUL). Between runs, an argument that does not start with `-`
/// ends the options, and so does one that starts with `--`, which is then
/// passed over.
pub open spec fn short_step(m: GetoptModel, opts: Seq<u8>) -> (GetoptModel, Outcome) {
    let o = c_string(opts);
    if m.place.len() > 0 {
        letter_step(m, o, m.place)
    } else if m.ind >= m.argv.len() || !starts_option(m.argv[m.ind as int]) {
        (m, Outcome::End)
    } else {
        let a = m.argv[m.ind as int];
        if a.len() > 1 && a[1] == 45u8 {
            (GetoptModel { ind: (m.ind + 1) as i32, ..m }, Outcome::End)
        } else if a.len() > 1 {
            letter_step(m, o, a.skip(1))
        } else {
            letter_step(m, o, a)
        }
    }
}

/// Whether a long option's name starts the text after `--`, followed by
/// its end or by `=`.
pub open spec fn name_matches(name: Seq<u8>, q: Seq<u8>) -> bool {
    q.len() >= name.len() && q.take(name.len() as int) == name && (q.len() == name.len()
        || q[name.len() as int] == 61u8)
}

/// The index of the first entry that ends the table (number zero) or whose
/// name matches; the length when there is none.
pub open spec fn long_pos(t: Seq<OptionModel>, q: Seq<u8>) -> int
    decreases t.len(),
{
    if t.len() == 0 || t[0].optch == 0 || name_matches(t[0].name, q) {
        0
    } else {
        1 + long_pos(t.skip(1), q)
    }
}

/// The index of the first entry that ends the table or is reported by the
/// number `v`; the length when there is none.
pub open spec fn short_pos(t: Seq<OptionModel>, v: int) -> int
    decreases t.len(),
{
    if t.len() == 0 || t[0].optch == 0 || t[0].optch == v {
        0
    } else {
        1 + short_pos(t.skip(1), v)
    }
}

/// Whether a table position is a found entry.
pub open spec fn found_at(t: Seq<OptionModel>, i: int) -> bool {
    0 <= i < t.len() && t[i].optch != 0
}

/// The first index at or after `i` that is past the arguments or holds an
/// argument starting with `-`.
pub open spec fn scan(argv: Seq<Seq<u8>>, i: int) -> int
    decreases argv.len() - i,
{
    if i >= argv.len() || starts_option(argv[i]) {
        i
    } else {
        scan(argv, i + 1)
    }
}

/// The arguments with the skipped range `[start, end)` and the option
/// arguments `[end, ind)` exchanged.
pub open spec fn exchange<T>(s: Seq<T>, start: int, end: int, ind: int) -> Seq<T> {
    s.take(start) + s.subrange(end, ind) + s.subrange(start, end) + s.skip(ind)
}

/// After an option is taken: with interleaving, the non-option arguments
/// that were passed over move behind the option's arguments; the skipped
/// range moves by the number of those arguments.
pub open spec fn permute(m: GetoptModel) -> GetoptModel {
    let len2 = m.ind.wrapping_sub(m.skip_end);
    GetoptModel {
        argv: if m.interleave {
            exchange(m.argv, m.skip_start as int, m.skip_end as int, m.ind as int)
        } else {
            m.argv
        },
        skip_start: m.skip_start.wrapping_add(len2),
        skip_end: m.skip_end.wrapping_add(len2),
        ..m
    }
}

/// A short option in `getopt_long`: the byte, read as a signed C `char`, is
/// looked up by number in the table.
pub open spec fn table_letter_step(m: GetoptModel, t: Seq<OptionModel>, p: Seq<u8>) -> (
    GetoptModel,
    Outcome,
) {
    let sc = signed_byte(p[0]);
    let i = short_pos(t, sc);
    let rest = p.skip(1);
    if !found_at(t, i) {
        (m, Outcome::BadChar(0))
    } else if t[i].has_arg {
        if rest.len() > 0 {
            (permute(GetoptModel { place: Seq::empty(), ..m }), Outcome::Found(sc, Some(rest)))
        } else if m.ind >= m.argv.len() {
            (m, Outcome::BadArgument(sc))
        } else {
            (
                permute(GetoptModel { place: Seq::empty(), ind: (m.ind + 1) as i32, ..m }),
                Outcome::Found(sc, Some(m.argv[m.ind as int])),
            )
        }
    } else {
        (permute(GetoptModel { place: rest, ..m }), Outcome::Found(sc, None))
    }
}

/// A long option `--q` in `getopt_long`: its argument is what follows `=`
/// or the next argument.
pub open spec fn table_name_step(m: GetoptModel, t: Seq<OptionModel>, q: Seq<u8>) -> (
    GetoptModel,
    Outcome,
) {
    let i = long_pos(t, q);
    if !found_at(t, i) {
        (m, Outcome::BadChar(0))
    } else {
        let len = t[i].name.len() as int;
        let v = t[i].optch as int;
        if t[i].has_arg {
            if q.len() > len {
                (permute(m), Outcome::Found(v, Some(q.skip(len + 1))))
            } else if m.ind >= m.argv.len() {
                (m, Outcome::BadArgument(v))
            } else {
                (
                    permute(GetoptModel { ind: (m.ind + 1) as i32, ..m }),
                    Outcome::Found(v, Some(m.argv[m.ind as int])),
                )
            }
        } else if q.len() > len {
            (m, Outcome::BadArgument(v))
        } else {
            (permute(m), Outcome::Found(v, None))
        }
    }
}

/// One step of `getopt_long` with the table `t`.
pub open spec fn long_step(m: GetoptModel, t: Seq<OptionModel>) -> (GetoptModel, Outcome) {
    if m.place.len() > 0 {
        table_letter_step(m, t, m.place)
    } else {
        let m1 = if m.interleave {
            GetoptModel {
                ind: scan(m.argv, m.ind as int) as i32,
                skip_end: scan(m.argv, m.ind as int) as i32,
                ..m
            }
        } else {
            m
        };
        if m1.ind >= m1.argv.len() || !starts_option(m1.argv[m1.ind as int]) {
            (GetoptModel { ind: m1.skip_start, ..m1 }, Outcome::End)
        } else {
            let q = m1.argv[m1.ind as int].skip(1);
            let m2 = GetoptModel { ind: (m1.ind + 1) as i32, ..m1 };
            if q.len() > 1 && q[0] == 45u8 {
                table_name_step(m2, t, q.skip(1))
            } else if q.len() == 1 && q[0] == 45u8 {
                let m3 = permute(m2);
                (GetoptModel { ind: m3.skip_start, ..m3 }, Outcome::End)
            } else if q.len() == 0 {
                (m2, Outcome::BadChar(0))
            } else {
                table_letter_step(m2, t, q)
            }
        }
    }
}

/// What every state keeps: the argument count leaves room for the index to
/// move, and a run of short options belongs to an argument that exists.
pub open spec fn model_inv(m: GetoptModel) -> bool {
    &&& m.argv.len() < i32::MAX - 1
    &&& m.place.len() > 0 ==> 0 <= m.ind <= m.argv.len()
}

/// What a step needs from the state: between runs the index is not
/// negative, since the next argument is read at it.
pub open spec fn step_ready(m: GetoptModel) -> bool {
    m.place.len() == 0 ==> m.ind >= 0
}

/// What interleaving needs: the skipped range lies before the arguments
/// that the step exchanges it with.
pub open spec fn interleave_ready(m: GetoptModel) -> bool {
    m.interleave ==> (0 <= m.skip_start && if m.place.len() == 0 {
        m.skip_start <= scan(m.argv, m.ind as int)
    } else {
        m.skip_start <= m.skip_end <= m.ind
    })
}

/// Whether an argument that a step hands back is text.
pub open spec fn argument_is_text(out: Outcome) -> bool {
    out matches Outcome::Found(_, Some(b)) ==> valid_utf8(b)
}

// ---------------------------------------------------------------------------
// Options
// ---------------------------------------------------------------------------

/// A command line option.
pub struct Option {
    name: String,
    has_arg: bool,
    optch: i32,
    description: std::option::Option<String>,
}

impl Option {
    /// The option's name.
    pub closed spec fn spec_name(&self) -> Seq<char> {
        self.name@
    }

    /// Whether the option takes an argument.
    pub closed spec fn spec_has_arg(&self) -> bool {
        self.has_arg
    }

    /// The number the option is reported by.
    pub closed spec fn spec_optch(&self) -> i32 {
        self.optch
    }

    /// The option's description, if it has one.
    pub closed spec fn spec_description(&self) -> std::option::Option<Seq<char>> {
        match self.description {
            Some(d) => Some(d@),
            None => None,
        }
    }

    /// The option as an entry of a table.
    pub open spec fn model(&self) -> OptionModel {
        OptionModel {
            name: encode_utf8(self.spec_name()),
            has_arg: self.spec_has_arg(),
            optch: self.spec_optch(),
        }
    }

    /// Create a new option. Its name and description are C strings, so they
    /// hold no NUL.
    pub fn new(
        pool: &Pool,
        name: &str,
        has_arg: bool,
        indicator: Indicator,
        description: std::option::Option<&str>,
    ) -> (r: Self)
        requires
            !has_nul(name.spec_bytes()),
            description matches Some(d) ==> !has_nul(d.spec_bytes()),
        ensures
            r.spec_name() == name@,
            r.spec_has_arg() == has_arg,
            r.spec_optch() == indicator_code(indicator),
            r.spec_description() == (match description {
                Some(d) => Some(d@),
                None => None::<Seq<char>>,
            }),
    {
        let optch: i32 = indicator.into();
        let description = match description {
            Some(d) => Some(String::from_str(d)),
            None => None,
        };
        Option { name: String::from_str(name), has_arg, optch, description }
    }

    /// Returns the name of the option.
    pub fn name(&self) -> (r: &str)
        ensures
            r@ == self.spec_name(),
    {
        self.name.as_str()
    }

    /// Returns true if the option has an argument.
    pub fn has_arg(&self) -> (r: bool)
        ensures
            r == self.spec_has_arg(),
    {
        self.has_arg
    }

    /// Returns the character code of the option: its number's low byte, or
    /// nothing for a number above 255.
    pub fn optch(&self) -> (r: std::option::Option<u8>)
        ensures
            self.spec_optch() > 255 ==> r is None,
            self.spec_optch() <= 255 ==> r == Some((self.spec_optch() as u8)),
    {
        if self.optch > 255 {
            None
        } else {
            Some(self.optch as u8)
        }
    }

    /// Returns the description of the option; it has to have one.
    pub fn description(&self) -> (r: &str)
        requires
            self.spec_description() is Some,
        ensures
            Some(r@) == self.spec_description(),
    {
        match &self.description {
            Some(d) => d.as_str(),
            None => "",
        }
    }
}

/// Types that can be converted into a sequence of allowed option characters.
pub trait IntoAllowedOptionChars {
    /// The allowed option characters.
    spec fn spec_option_chars(&self) -> Seq<char>;

    /// Converts the value into the allowed option characters.
    fn option_chars(self) -> (r: Vec<char>)
        ensures
            r@ == self.spec_option_chars(),
    ;
}

impl<'a> IntoAllowedOptionChars for &'a str {
    open spec fn spec_option_chars(&self) -> Seq<char> {
        (*self)@
    }

    fn option_chars(self) -> (r: Vec<char>) {
        let n = self.unicode_len();
        let mut r: Vec<char> = Vec::new();
        let mut i: usize = 0;
        while i < n
            invariant
                n == self@.len(),
                i <= n,
                r@ == self@.take(i as int),
            decreases n - i,
        {
            r.push(self.get_char(i));
            proof {
                assert(self@.take(i + 1) =~= self@.take(i as int).push(self@[i as int]));
            }
            i = i + 1;
        }
        proof {
            assert(self@.take(n as int) =~= self@);
        }
        r
    }
}

impl<'a> IntoAllowedOptionChars for &'a [char] {
    open spec fn spec_option_chars(&self) -> Seq<char> {
        (*self)@
    }

    fn option_chars(self) -> (r: Vec<char>) {
        let mut r: Vec<char> = Vec::new();
        let mut i: usize = 0;
        while i < self.len()
            invariant
                i <= self@.len(),
                r@ == self@.take(i as int),
            decreases self@.len() - i,
        {
            r.push(self[i]);
            proof {
                assert(self@.take(i + 1) =~= self@.take(i as int).push(self@[i as int]));
            }
            i = i + 1;
        }
        proof {
            assert(self@.take(self@.len() as int) =~= self@);
        }
        r
    }
}

/// The low byte of each allowed option character.
fn option_bytes(cs: &Vec<char>) -> (r: Vec<u8>)
    ensures
        r@ == letter_bytes(cs@),
{
    let mut r: Vec<u8> = Vec::new();
    let mut i: usize = 0;
    while i < cs.len()
        invariant
            i <= cs@.len(),
            r@ == letter_bytes(cs@).take(i as int),
        decreases cs@.len() - i,
    {
        let c = cs[i];
        r.push((c as u32) as u8);
        proof {
            assert(letter_bytes(cs@).take(i + 1) =~= letter_bytes(cs@).take(i as int).push(
                (cs@[i as int] as u32) as u8,
            ));
        }
        i = i + 1;
    }
    proof {
        assert(letter_bytes(cs@).take(cs@.len() as int) =~= letter_bytes(cs@));
    }
    r
}

// ---------------------------------------------------------------------------
// The parser
// ---------------------------------------------------------------------------

/// The arguments as bytes.
pub open spec fn args_model(argv: Seq<String>) -> Seq<Seq<u8>> {
    Seq::new(argv.len(), |i: int| encode_utf8(argv[i]@))
}

/// The table of long options as entries.
pub open spec fn table_model(opts: Seq<Option>) -> Seq<OptionModel> {
    Seq::new(opts.len(), |i: int| opts[i].model())
}

/// Whether a handed-back argument is the string of the bytes that a step
/// found.
pub open spec fn argument_matches(
    a: std::option::Option<String>,
    b: std::option::Option<Seq<u8>>,
) -> bool {
    match b {
        None => a is None,
        Some(bytes) => a matches Some(s) && s@ == decode_utf8(bytes),
    }
}

/// The result of parsing a command line option.
pub enum GetoptResult {
    /// An option.
    Option(Indicator, std::option::Option<String>),
    /// A missing argument.
    MissingArgument(char),
    /// A bad option.
    BadOption(char),
    /// The end of options.
    End,
}

/// How `getopt` reports a step: an option by its letter.
pub open spec fn short_result(r: GetoptResult, out: Outcome) -> bool {
    match out {
        Outcome::Found(c, a) => r matches GetoptResult::Option(i, s) && i == Indicator::Letter(
            (c as u8) as char,
        ) && argument_matches(s, a),
        Outcome::End => r is End,
        Outcome::BadChar(c) => r matches GetoptResult::BadOption(x) && x == (c as u8) as char,
        Outcome::BadArgument(c) => r matches GetoptResult::MissingArgument(x) && x == (c
            as u8) as char,
    }
}

/// How `getopt_long` reports a step: an option by the indicator of its
/// number, an error by the low byte of the number that it reports.
pub open spec fn long_result(r: GetoptResult, out: Outcome) -> bool {
    match out {
        Outcome::Found(v, a) => r matches GetoptResult::Option(i, s) && i == indicator_of(
            v as i32,
        ) && argument_matches(s, a),
        Outcome::End => r is End,
        Outcome::BadChar(v) => r matches GetoptResult::BadOption(x) && x == (v as u8) as char,
        Outcome::BadArgument(v) => r matches GetoptResult::MissingArgument(x) && x == (v
            as u8) as char,
    }
}

/// What exchanging argument ranges needs: the ranges lie in order within
/// the arguments.
pub open spec fn permute_safe(m: GetoptModel) -> bool {
    m.interleave ==> 0 <= m.skip_start <= m.skip_end <= m.ind <= m.argv.len()
}

/// Exchanging ranges of strings exchanges their bytes.
proof fn lemma_exchange_model(v: Seq<String>, start: int, end: int, ind: int)
    requires
        0 <= start <= end <= ind <= v.len(),
    ensures
        args_model(exchange(v, start, end, ind)) == exchange(args_model(v), start, end, ind),
{
    let l = args_model(exchange(v, start, end, ind));
    let r = exchange(args_model(v), start, end, ind);
    let e = exchange(v, start, end, ind);
    assert(l.len() == r.len());
    assert forall|i: int| 0 <= i < l.len() implies l[i] == r[i] by {
        if i < start {
            assert(e[i] == v[i]);
        } else if i < start + (ind - end) {
            assert(e[i] == v[end + (i - start)]);
        } else if i < ind {
            assert(e[i] == v[start + (i - start - (ind - end))]);
        } else {
            assert(e[i] == v[i]);
        }
    }
    assert(l =~= r);
}

/// Appends copies of a range of strings.
fn append_range(r: &mut Vec<String>, v: &Vec<String>, from: usize, to: usize)
    requires
        from <= to <= v@.len(),
    ensures
        final(r)@ == old(r)@ + v@.subrange(from as int, to as int),
{
    let ghost start = r@;
    let mut i: usize = from;
    while i < to
        invariant
            from <= i <= to <= v@.len(),
            r@ == start + v@.subrange(from as int, i as int),
        decreases to - i,
    {
        r.push(v[i].clone());
        proof {
            assert(v@.subrange(from as int, i + 1) =~= v@.subrange(from as int, i as int).push(
                v@[i as int],
            ));
        }
        i = i + 1;
    }
}

/// A command line option parser.
pub struct Getopt {
    argv: Vec<String>,
    ind: i32,
    place: Vec<u8>,
    interleave: bool,
    skip_start: i32,
    skip_end: i32,
}

impl View for Getopt {
    type V = GetoptModel;

    closed spec fn view(&self) -> GetoptModel {
        GetoptModel {
            argv: args_model(self.argv@),
            ind: self.ind,
            place: self.place@,
            interleave: self.interleave,
            skip_start: self.skip_start,
            skip_end: self.skip_end,
        }
    }
}

impl Getopt {
    /// What every parser keeps.
    pub open spec fn wf(&self) -> bool {
        model_inv(self@)
    }

    /// Create a new parser over the arguments, which are C strings (no
    /// NUL). Parsing starts at the second argument, between runs, without
    /// interleaving, with the skipped range at the second argument.
    pub fn new(args: &[&str]) -> (r: Result<Self, Status>)
        requires
            args@.len() < i32::MAX - 1,
            forall|i: int| 0 <= i < args@.len() ==> !has_nul(#[trigger] args@[i].spec_bytes()),
        ensures
            r matches Ok(g) && g.wf() && g@ == (GetoptModel {
                argv: Seq::new(args@.len(), |i: int| args@[i].spec_bytes()),
                ind: 1,
                place: Seq::empty(),
                interleave: false,
                skip_start: 1,
                skip_end: 1,
            }),
    {
        let mut argv: Vec<String> = Vec::new();
        let mut i: usize = 0;
        while i < args.len()
            invariant
                i <= args@.len(),
                argv@.len() == i,
                forall|j: int| 0 <= j < i ==> (#[trigger] argv@[j])@ == args@[j]@,
            decreases args@.len() - i,
        {
            argv.push(String::from_str(args[i]));
            i = i + 1;
        }
        let g = Getopt {
            argv,
            ind: 1,
            place: Vec::new(),
            interleave: false,
            skip_start: 1,
            skip_end: 1,
        };
        proof {
            assert(g@.argv =~= Seq::new(args@.len(), |i: int| args@[i].spec_bytes()));
            assert(g@.place =~= Seq::<u8>::empty());
        }
        Ok(g)
    }

    /// Return the arguments, in their present order.
    pub fn args(&self) -> (r: Vec<&str>)
        ensures
            r@.len() == self@.argv.len(),
            forall|i: int| 0 <= i < r@.len() ==> (#[trigger] r@[i]).spec_bytes() == self@.argv[i],
    {
        let mut r: Vec<&str> = Vec::new();
        let mut i: usize = 0;
        while i < self.argv.len()
            invariant
                i <= self.argv@.len(),
                r@.len() == i,
                forall|j: int| 0 <= j < i ==> (#[trigger] r@[j])@ == self.argv@[j]@,
            decreases self.argv@.len() - i,
        {
            r.push(self.argv[i].as_str());
            i = i + 1;
        }
        r
    }

    /// Allow interleaving of options and arguments.
    pub fn allow_interleaving(&mut self, allow: bool)
        requires
            old(self).wf(),
        ensures
            final(self).wf(),
            final(self)@ == (GetoptModel { interleave: allow, ..old(self)@ }),
    {
        self.interleave = allow;
    }

    /// Skip the first `skip` arguments.
    pub fn skip_start(&mut self, skip: i32)
        requires
            old(self).wf(),
        ensures
            final(self).wf(),
            final(self)@ == (GetoptModel { skip_start: skip, ..old(self)@ }),
    {
        self.skip_start = skip;
    }

    /// Skip the last `skip` arguments.
    pub fn skip_end(&mut self, skip: i32)
        requires
            old(self).wf(),
        ensures
            final(self).wf(),
            final(self)@ == (GetoptModel { skip_end: skip, ..old(self)@ }),
    {
        self.skip_end = skip;
    }

    /// Whether an argument starts with `-`.
    fn arg_starts_option(&self, j: usize) -> (r: bool)
        requires
            j < self@.argv.len(),
        ensures
            r == starts_option(self@.argv[j as int]),
    {
        let b = self.argv[j].as_str().as_bytes();
        b.len() > 0 && b[0] == 45u8
    }

    /// The bytes of an argument.
    fn arg_bytes(&self, j: usize) -> (r: Vec<u8>)
        requires
            j < self@.argv.len(),
        ensures
            r@ == self@.argv[j as int],
    {
        let b = bytes_from(self.argv[j].as_str().as_bytes(), 0);
        proof {
            assert(b@ =~= self@.argv[j as int]);
        }
        b
    }

    /// One short option from the run `p` against the letter list `o`.
    fn letter_step(&mut self, o: &Vec<u8>, p: Vec<u8>) -> (r: GetoptResult)
        requires
            old(self).wf(),
            p@.len() > 0,
            0 <= old(self)@.ind <= old(self)@.argv.len(),
            argument_is_text(letter_step(old(self)@, o@, p@).1),
        ensures
            final(self).wf(),
            final(self)@ == letter_step(old(self)@, o@, p@).0,
            short_result(r, letter_step(old(self)@, o@, p@).1),
    {
        let c = p[0];
        let rest = bytes_from(p.as_slice(), 1);
        let k = find_byte(o.as_slice(), c);
        proof {
            lemma_first_index_bounds(o@, c);
        }
        if c == 58u8 || k >= o.len() {
            if c == 45u8 {
                self.place = rest;
                GetoptResult::End
            } else {
                let exhausted = rest.len() == 0;
                self.place = rest;
                if exhausted {
                    self.ind = self.ind + 1;
                }
                GetoptResult::BadOption(c as char)
            }
        } else if !(k + 1 < o.len() && o[k + 1] == 58u8) {
            let exhausted = rest.len() == 0;
            self.place = rest;
            if exhausted {
                self.ind = self.ind + 1;
            }
            GetoptResult::Option(Indicator::Letter(c as char), None)
        } else if rest.len() > 0 {
            self.place = Vec::new();
            self.ind = self.ind + 1;
            GetoptResult::Option(Indicator::Letter(c as char), Some(text_of(rest)))
        } else if self.argv.len() <= (self.ind as usize) + 1 {
            self.place = Vec::new();
            self.ind = self.ind + 1;
            if o.len() > 0 && o[0] == 58u8 {
                GetoptResult::MissingArgument(c as char)
            } else {
                GetoptResult::BadOption(c as char)
            }
        } else {
            let arg = self.argv[(self.ind as usize) + 1].clone();
            self.place = Vec::new();
            self.ind = self.ind + 2;
            GetoptResult::Option(Indicator::Letter(c as char), Some(arg))
        }
    }

    /// Parse a command line option: the next short option from the letters
    /// allowed by `opts`, where a letter followed by `:` takes an argument.
    pub fn getopt<T: IntoAllowedOptionChars>(&mut self, opts: T) -> (r: GetoptResult)
        requires
            old(self).wf(),
            step_ready(old(self)@),
            argument_is_text(short_step(old(self)@, letter_bytes(opts.spec_option_chars())).1),
        ensures
            final(self).wf(),
            final(self)@ == short_step(old(self)@, letter_bytes(opts.spec_option_chars())).0,
            short_result(r, short_step(old(self)@, letter_bytes(opts.spec_option_chars())).1),
    {
        let ghost m = self@;
        let ghost allowed = letter_bytes(opts.spec_option_chars());
        let chars = opts.option_chars();
        let ob = option_bytes(&chars);
        let n = find_byte(ob.as_slice(), 0u8);
        proof {
            lemma_first_index_bounds(ob@, 0u8);
        }
        let o = bytes_prefix(ob.as_slice(), n);
        assert(o@ == c_string(allowed));
        if self.place.len() > 0 {
            let p = bytes_from(self.place.as_slice(), 0);
            proof {
                assert(p@ =~= m.place);
            }
            self.letter_step(&o, p)
        } else if (self.ind as usize) >= self.argv.len() || !self.arg_starts_option(
            self.ind as usize,
        ) {
            GetoptResult::End
        } else {
            let a = self.arg_bytes(self.ind as usize);
            if a.len() > 1 && a[1] == 45u8 {
                self.ind = self.ind + 1;
                GetoptResult::End
            } else if a.len() > 1 {
                let p = bytes_from(a.as_slice(), 1);
                self.letter_step(&o, p)
            } else {
                self.letter_step(&o, a)
            }
        }
    }

    /// The first index at or after `i` past the arguments or at an
    /// argument starting with `-`.
    fn scan_from(&self, i: usize) -> (r: usize)
        requires
            i <= i32::MAX,
        ensures
            r == scan(self@.argv, i as int),
            i <= r,
            r <= i || r <= self@.argv.len(),
    {
        let mut j: usize = i;
        while j < self.argv.len() && !self.arg_starts_option(j)
            invariant
                i <= j,
                j <= i || j <= self@.argv.len(),
                scan(self@.argv, i as int) == scan(self@.argv, j as int),
            decreases self@.argv.len() - j,
        {
            j = j + 1;
        }
        j
    }

    /// Moves the skipped range behind the arguments of the option just
    /// taken (exchanging the arguments when interleaving).
    fn permute(&mut self)
        requires
            permute_safe(old(self)@),
        ensures
            final(self)@ == permute(old(self)@),
    {
        let len2 = self.ind.wrapping_sub(self.skip_end);
        if self.interleave {
            let start = self.skip_start as usize;
            let end = self.skip_end as usize;
            let ind = self.ind as usize;
            let mut v: Vec<String> = Vec::new();
            append_range(&mut v, &self.argv, 0, start);
            append_range(&mut v, &self.argv, end, ind);
            append_range(&mut v, &self.argv, start, end);
            append_range(&mut v, &self.argv, ind, self.argv.len());
            proof {
                let a = self.argv@;
                assert(v@ =~= exchange(a, start as int, end as int, ind as int));
                lemma_exchange_model(a, start as int, end as int, ind as int);
            }
            self.argv = v;
        }
        self.skip_start = self.skip_start.wrapping_add(len2);
        self.skip_end = self.skip_end.wrapping_add(len2);
    }

    /// A short option of `getopt_long` from the run `p`.
    fn table_letter_step(&mut self, opts: &[Option], p: Vec<u8>) -> (r: GetoptResult)
        requires
            old(self).wf(),
            p@.len() > 0,
            0 <= old(self)@.ind <= old(self)@.argv.len(),
            permute_safe(old(self)@),
            argument_is_text(table_letter_step(old(self)@, table_model(opts@), p@).1),
        ensures
            final(self).wf(),
            final(self)@ == table_letter_step(old(self)@, table_model(opts@), p@).0,
            long_result(r, table_letter_step(old(self)@, table_model(opts@), p@).1),
    {
        let ghost t = table_model(opts@);
        let c = p[0];
        let sc: i32 = if c < 128 {
            c as i32
        } else {
            c as i32 - 256
        };
        let mut i: usize = 0;
        while i < opts.len() && opts[i].optch != 0 && opts[i].optch != sc
            invariant
                i <= opts@.len(),
                t == table_model(opts@),
                forall|j: int| 0 <= j < i ==> t[j].optch != 0 && t[j].optch != sc,
            decreases opts@.len() - i,
        {
            i = i + 1;
        }
        proof {
            lemma_short_pos(t, sc as int, i as int);
        }
        if i >= opts.len() || opts[i].optch == 0 {
            return GetoptResult::BadOption(0u8 as char);
        }
        let rest = bytes_from(p.as_slice(), 1);
        if opts[i].has_arg {
            if rest.len() > 0 {
                self.place = Vec::new();
                self.permute();
                GetoptResult::Option(Indicator::from(sc), Some(text_of(rest)))
            } else if (self.ind as usize) >= self.argv.len() {
                GetoptResult::MissingArgument((sc as u8) as char)
            } else {
                let arg = self.argv[self.ind as usize].clone();
                self.place = Vec::new();
                self.ind = self.ind + 1;
                self.permute();
                GetoptResult::Option(Indicator::from(sc), Some(arg))
            }
        } else {
            self.place = rest;
            self.permute();
            GetoptResult::Option(Indicator::from(sc), None)
        }
    }

    /// A long option `--q` of `getopt_long`.
    fn table_name_step(&mut self, opts: &[Option], q: Vec<u8>) -> (r: GetoptResult)
        requires
            old(self).wf(),
            old(self)@.place.len() == 0,
            0 <= old(self)@.ind <= old(self)@.argv.len(),
            permute_safe(old(self)@),
            argument_is_text(table_name_step(old(self)@, table_model(opts@), q@).1),
        ensures
            final(self).wf(),
            final(self)@ == table_name_step(old(self)@, table_model(opts@), q@).0,
            long_result(r, table_name_step(old(self)@, table_model(opts@), q@).1),
    {
        let ghost t = table_model(opts@);
        let mut i: usize = 0;
        while i < opts.len() && opts[i].optch != 0 && !name_prefix_matches(
            opts[i].name.as_str().as_bytes(),
            q.as_slice(),
        )
            invariant
                i <= opts@.len(),
                t == table_model(opts@),
                forall|j: int| 0 <= j < i ==> t[j].optch != 0 && !name_matches(t[j].name, q@),
            decreases opts@.len() - i,
        {
            i = i + 1;
        }
        proof {
            lemma_long_pos(t, q@, i as int);
        }
        if i >= opts.len() || opts[i].optch == 0 {
            return GetoptResult::BadOption(0u8 as char);
        }
        let len = opts[i].name.as_str().as_bytes().len();
        let v = opts[i].optch;
        if opts[i].has_arg {
            if q.len() > len {
                let arg = bytes_from(q.as_slice(), len + 1);
                self.permute();
                GetoptResult::Option(Indicator::from(v), Some(text_of(arg)))
            } else if (self.ind as usize) >= self.argv.len() {
                GetoptResult::MissingArgument((v as u8) as char)
            } else {
                let arg = self.argv[self.ind as usize].clone();
                self.ind = self.ind + 1;
                self.permute();
                GetoptResult::Option(Indicator::from(v), Some(arg))
            }
        } else if q.len() > len {
            GetoptResult::MissingArgument((v as u8) as char)
        } else {
            self.permute();
            GetoptResult::Option(Indicator::from(v), None)
        }
    }

    /// Parse a long command line option: the next option from the table
    /// `opts`, long (`--name`, `--name=value`) or short (a run of letters
    /// matched by number).
    pub fn getopt_long(&mut self, opts: &[Option]) -> (r: GetoptResult)
        requires
            old(self).wf(),
            step_ready(old(self)@),
            interleave_ready(old(self)@),
            argument_is_text(long_step(old(self)@, table_model(opts@)).1),
        ensures
            final(self).wf(),
            final(self)@ == long_step(old(self)@, table_model(opts@)).0,
            long_result(r, long_step(old(self)@, table_model(opts@)).1),
    {
        if self.place.len() > 0 {
            let p = bytes_from(self.place.as_slice(), 0);
            proof {
                assert(p@ =~= self@.place);
            }
            return self.table_letter_step(opts, p);
        }
        if self.interleave {
            let e = self.scan_from(self.ind as usize);
            self.ind = e as i32;
            self.skip_end = e as i32;
        }
        if (self.ind as usize) >= self.argv.len() || !self.arg_starts_option(self.ind as usize) {
            self.ind = self.skip_start;
            return GetoptResult::End;
        }
        let a = self.arg_bytes(self.ind as usize);
        let q = bytes_from(a.as_slice(), 1);
        self.ind = self.ind + 1;
        if q.len() > 1 && q[0] == 45u8 {
            let name = bytes_from(q.as_slice(), 1);
            self.table_name_step(opts, name)
        } else if q.len() == 1 && q[0] == 45u8 {
            self.permute();
            self.ind = self.skip_start;
            GetoptResult::End
        } else if q.len() == 0 {
            GetoptResult::BadOption(0u8 as char)
        } else {
            self.table_letter_step(opts, q)
        }
    }
}

/// Whether a long option's name starts the text after `--`, followed by its
/// end or by `=`.
fn name_prefix_matches(name: &[u8], q: &[u8]) -> (r: bool)
    ensures
        r == name_matches(name@, q@),
{
    if q.len() < name.len() {
        return false;
    }
    let mut i: usize = 0;
    while i < name.len()
        invariant
            i <= name@.len() <= q@.len(),
            forall|j: int| 0 <= j < i ==> name@[j] == q@[j],
        decreases name@.len() - i,
    {
        if name[i] != q[i] {
            proof {
                assert(q@.take(name@.len() as int)[i as int] != name@[i as int]);
            }
            return false;
        }
        i = i + 1;
    }
    proof {
        assert(q@.take(name@.len() as int) =~= name@);
    }
    q.len() == name.len() || q[name.len()] == 61u8
}

/// The table position found by scanning is the first such position.
proof fn lemma_short_pos(t: Seq<OptionModel>, v: int, i: int)
    requires
        0 <= i <= t.len(),
        forall|j: int| 0 <= j < i ==> t[j].optch != 0 && t[j].optch != v,
        i == t.len() || t[i].optch == 0 || t[i].optch == v,
    ensures
        short_pos(t, v) == i,
    decreases i,
{
    if i > 0 {
        lemma_short_pos(t.skip(1), v, i - 1);
    }
}

/// The table position found by scanning is the first such position.
proof fn lemma_long_pos(t: Seq<OptionModel>, q: Seq<u8>, i: int)
    requires
        0 <= i <= t.len(),
        forall|j: int| 0 <= j < i ==> t[j].optch != 0 && !name_matches(t[j].name, q),
        i == t.len() || t[i].optch == 0 || name_matches(t[i].name, q),
    ensures
        long_pos(t, q) == i,
    decreases i,
{
    if i > 0 {
        lemma_long_pos(t.skip(1), q, i - 1);
    }
}

/// The state and finding after `n` calls of `getopt_long` with the table
/// `t`, from the state `m` (one call for `n` of one or less).
pub open spec fn long_steps(m: GetoptModel, t: Seq<OptionModel>, n: nat) -> (GetoptModel, Outcome)
    decreases n,
{
    if n <= 1 {
        long_step(m, t)
    } else {
        long_step(long_steps(m, t, (n - 1) as nat).0, t)
    }
}

/// The state and finding after `n` calls of `getopt` with the letters
/// `opts`, from the state `m` (one call for `n` of one or less).
pub open spec fn short_steps(m: GetoptModel, opts: Seq<u8>, n: nat) -> (GetoptModel, Outcome)
    decreases n,
{
    if n <= 1 {
        short_step(m, opts)
    } else {
        short_step(short_steps(m, opts, (n - 1) as nat).0, opts)
    }
}

/// Whether every letter of a run is an option of the table that takes no
/// argument.
pub open spec fn run_of_plain_options(t: Seq<OptionModel>, p: Seq<u8>) -> bool {
    forall|k: int|
        0 <= k < p.len() ==> found_at(t, #[trigger] short_pos(t, signed_byte(p[k])))
            && !t[short_pos(t, signed_byte(p[k]))].has_arg
}

/// Whether every letter of a run is in the letter list, not `:`, and not
/// followed there by `:`.
pub open spec fn run_of_plain_letters(o: Seq<u8>, p: Seq<u8>) -> bool {
    forall|k: int|
        0 <= k < p.len() ==> p[k] != 58u8 && #[trigger] first_index(o, p[k]) < o.len() && !(
        first_index(o, p[k]) + 1 < o.len() && o[first_index(o, p[k]) + 1] == 58u8)
}

/// A run of short options that take no argument, such as `-av`, is
/// reported by `getopt_long` letter by letter: the `k`-th call from the
/// start of the run reports the `k`-th letter, and the letters after it
/// stay to be read.
pub proof fn law_long_letter_run(m: GetoptModel, t: Seq<OptionModel>, k: nat)
    requires
        m.place.len() > 0,
        run_of_plain_options(t, m.place),
        k < m.place.len(),
    ensures
        long_steps(m, t, k + 1).1 == Outcome::Found(signed_byte(m.place[k as int]), None),
        long_steps(m, t, k + 1).0.place == m.place.skip(k as int + 1),
    decreases k,
{
    let p = m.place;
    if k == 0 {
        assert(found_at(t, short_pos(t, signed_byte(p[0]))));
    } else {
        law_long_letter_run(m, t, (k - 1) as nat);
        let mk = long_steps(m, t, k).0;
        assert(mk.place == p.skip(k as int));
        assert(mk.place[0] == p[k as int]);
        assert(found_at(t, short_pos(t, signed_byte(p[k as int]))));
        assert(mk.place.skip(1) =~= p.skip(k as int + 1));
    }
}

/// A run of short options that take no argument, such as `-av`, is
/// reported by `getopt` letter by letter: the `k`-th call from the start of
/// the run reports the `k`-th letter, and the letters after it stay to be
/// read.
pub proof fn law_short_letter_run(m: GetoptModel, opts: Seq<u8>, k: nat)
    requires
        m.place.len() > 0,
        run_of_plain_letters(c_string(opts), m.place),
        k < m.place.len(),
    ensures
        short_steps(m, opts, k + 1).1 == Outcome::Found(m.place[k as int] as int, None),
        short_steps(m, opts, k + 1).0.place == m.place.skip(k as int + 1),
    decreases k,
{
    let p = m.place;
    let o = c_string(opts);
    if k == 0 {
        assert(first_index(o, p[0]) < o.len());
    } else {
        law_short_letter_run(m, opts, (k - 1) as nat);
        let mk = short_steps(m, opts, k).0;
        assert(mk.place == p.skip(k as int));
        assert(mk.place[0] == p[k as int]);
        assert(first_index(o, p[k as int]) < o.len());
        assert(mk.place.skip(1) =~= p.skip(k as int + 1));
    }
}

/// A short option of the table that takes an argument, met in a run with
/// letters after it (`-ofile`), takes the rest of the run as its argument,
/// and the next call starts on the next argument. Met at the end of its
/// run (`-o file`), it takes the next argument whole, where there is one.
pub proof fn law_long_letter_argument(m: GetoptModel, t: Seq<OptionModel>)
    requires
        model_inv(m),
        m.place.len() > 0,
        found_at(t, short_pos(t, signed_byte(m.place[0]))),
        t[short_pos(t, signed_byte(m.place[0]))].has_arg,
    ensures
        m.place.len() > 1 ==> long_step(m, t).1 == Outcome::Found(
            signed_byte(m.place[0]),
            Some(m.place.skip(1)),
        ) && long_step(m, t).0.place.len() == 0 && long_step(m, t).0.ind == m.ind,
        m.place.len() == 1 && 0 <= m.ind < m.argv.len() ==> long_step(m, t).1 == Outcome::Found(
            signed_byte(m.place[0]),
            Some(m.argv[m.ind as int]),
        ) && long_step(m, t).0.place.len() == 0 && long_step(m, t).0.ind == m.ind + 1,
        m.place.len() == 1 && m.ind >= m.argv.len() ==> long_step(m, t).1 == Outcome::BadArgument(
            signed_byte(m.place[0]),
        ),
{
}

/// A letter of the list that is followed there by `:`, met in a run with
/// letters after it (`-ofile`), takes the rest of the run as its argument;
/// met at the end of its run (`-o file`), it takes the next argument whole,
/// where there is one. Either way the next call starts on the argument
/// after those it used.
pub proof fn law_short_letter_argument(m: GetoptModel, opts: Seq<u8>)
    requires
        model_inv(m),
        m.place.len() > 0,
        m.place[0] != 58u8,
        first_index(c_string(opts), m.place[0]) + 1 < c_string(opts).len(),
        c_string(opts)[first_index(c_string(opts), m.place[0]) + 1] == 58u8,
    ensures
        m.place.len() > 1 ==> short_step(m, opts).1 == Outcome::Found(
            m.place[0] as int,
            Some(m.place.skip(1)),
        ) && short_step(m, opts).0.place.len() == 0 && short_step(m, opts).0.ind == m.ind + 1,
        m.place.len() == 1 && m.ind + 1 < m.argv.len() ==> short_step(m, opts).1
            == Outcome::Found(m.place[0] as int, Some(m.argv[m.ind + 1])) && short_step(
            m,
            opts,
        ).0.place.len() == 0 && short_step(m, opts).0.ind == m.ind + 2,
{
}

/// A long option written `--name=value`, whose entry in the table takes an
/// argument, is reported with the text after the `=` as its argument, and
/// the next call starts on the next argument.
pub proof fn law_long_name_value(m: GetoptModel, t: Seq<OptionModel>, name: Seq<u8>, v: Seq<u8>)
    requires
        model_inv(m),
        m.place.len() == 0,
        !m.interleave,
        0 <= m.ind < m.argv.len(),
        m.argv[m.ind as int] == seq![45u8, 45u8] + name + seq![61u8] + v,
        found_at(t, long_pos(t, name + seq![61u8] + v)),
        t[long_pos(t, name + seq![61u8] + v)].name == name,
        t[long_pos(t, name + seq![61u8] + v)].has_arg,
    ensures
        long_step(m, t).1 == Outcome::Found(
            t[long_pos(t, name + seq![61u8] + v)].optch as int,
            Some(v),
        ),
        long_step(m, t).0.ind == m.ind + 1,
        long_step(m, t).0.place.len() == 0,
{
    let a = m.argv[m.ind as int];
    let q = name + seq![61u8] + v;
    assert(a.skip(1).skip(1) =~= q);
    assert(a.skip(1)[0] == 45u8);
    assert(q.skip(name.len() as int + 1) =~= v);
}

} // verus!
