//! Options given as ` key value ` pairs on a command line, each read by a
//! rule into a configuration.

use crate::text::{token_at, token_from, trim, trimmed};
use core::marker::PhantomData;
use vstd::prelude::*;
use vstd::utf8::encode_utf8;

verus! {

/// Whether `pat` occurs in `hay` at byte index `i`.
pub open spec fn occurs_at(hay: Seq<u8>, pat: Seq<u8>, i: int) -> bool {
    &&& 0 <= i
    &&& i + pat.len() <= hay.len()
    &&& hay.subrange(i, i + pat.len()) == pat
}

/// The first byte index at or after `start` at which `pat` occurs in `hay`.
pub open spec fn find_from(hay: Seq<u8>, pat: Seq<u8>, start: int) -> Option<int>
    decreases hay.len() + 1 - start,
{
    if start < 0 || start + pat.len() > hay.len() {
        None
    } else if occurs_at(hay, pat, start) {
        Some(start)
    } else {
        find_from(hay, pat, start + 1)
    }
}

/// The bytes of ` key ` with the key trimmed, the text that a rule looks for.
pub open spec fn key_pattern(key: Seq<char>) -> Seq<u8> {
    seq![32u8] + encode_utf8(trimmed(key)) + seq![32u8]
}

/// The value that a rule with `key` reads from `input`: `None` where
/// ` key ` does not occur in it; else the first token after its first
/// occurrence. The occurrence is found by its byte index, and that index plus
/// the pattern's length in bytes is then counted in characters: in text with
/// characters of more than one byte before the key, the value is looked for
/// further on.
pub open spec fn extracted_value(input: Seq<char>, key: Seq<char>) -> Option<Seq<char>> {
    match find_from(encode_utf8(input), key_pattern(key), 0) {
        None => None,
        Some(i) => Some(token_at(input, i + key_pattern(key).len())),
    }
}

proof fn lemma_find_step(hay: Seq<u8>, pat: Seq<u8>, i: int)
    requires
        0 <= i,
        i + pat.len() <= hay.len(),
        !occurs_at(hay, pat, i),
    ensures
        find_from(hay, pat, i) == find_from(hay, pat, i + 1),
{
}

proof fn lemma_found_occurs(hay: Seq<u8>, pat: Seq<u8>, start: int)
    ensures
        find_from(hay, pat, start) matches Some(i) ==> start <= i && occurs_at(hay, pat, i),
    decreases hay.len() + 1 - start,
{
    if !(start < 0 || start + pat.len() > hay.len()) && !occurs_at(hay, pat, start) {
        lemma_found_occurs(hay, pat, start + 1);
    }
}

/// Whether `pat` occurs in `hay` at byte index `i`.
fn bytes_occur_at(hay: &[u8], pat: &[u8], i: usize) -> (r: bool)
    requires
        i + pat@.len() <= hay.len(),
    ensures
        r == occurs_at(hay@, pat@, i as int),
{
    let mut k: usize = 0;
    while k < pat.len()
        invariant
            i + pat@.len() <= hay.len(),
            k <= pat@.len(),
            forall|m: int| 0 <= m < k ==> hay@[i + m] == pat@[m],
        decreases pat.len() - k,
    {
        if hay[i + k] != pat[k] {
            assert(hay@.subrange(i as int, i + pat@.len())[k as int] != pat@[k as int]);
            return false;
        }
        k = k + 1;
    }
    assert(hay@.subrange(i as int, i + pat@.len()) =~= pat@);
    true
}

/// The byte index of the first occurrence of `pat` in `hay`, as `str::find`
/// reports it.
fn find_bytes(hay: &[u8], pat: &[u8]) -> (r: Option<usize>)
    requires
        pat@.len() > 0,
    ensures
        match find_from(hay@, pat@, 0) {
            None => r is None,
            Some(i) => r == Some(i as usize),
        },
{
    let mut i: usize = 0;
    if pat.len() > hay.len() {
        return None;
    }
    while i <= hay.len() - pat.len()
        invariant
            0 < pat@.len() <= hay@.len(),
            i <= hay@.len() - pat@.len() + 1,
            find_from(hay@, pat@, 0) == find_from(hay@, pat@, i as int),
        decreases hay.len() - pat.len() + 1 - i,
    {
        if bytes_occur_at(hay, pat, i) {
            return Some(i);
        }
        proof {
            lemma_find_step(hay@, pat@, i as int);
        }
        i = i + 1;
    }
    None
}

/// The bytes of ` key ` with `key` trimmed.
fn key_pattern_bytes(key: &str) -> (r: Vec<u8>)
    ensures
        r@ == key_pattern(key@),
{
    let trimmed_key = trim(key);
    let key_bytes = trimmed_key.as_bytes();
    let mut r: Vec<u8> = Vec::new();
    r.push(32u8);
    let mut k: usize = 0;
    while k < key_bytes.len()
        invariant
            k <= key_bytes@.len(),
            r@ == seq![32u8] + key_bytes@.take(k as int),
        decreases key_bytes.len() - k,
    {
        r.push(key_bytes[k]);
        proof {
            assert(key_bytes@.take(k + 1) =~= key_bytes@.take(k as int).push(key_bytes@[k as int]));
        }
        k = k + 1;
    }
    r.push(32u8);
    assert(key_bytes@.take(k as int) =~= key_bytes@);
    assert(r@ =~= key_pattern(key@));
    r
}

/// The value that a rule with `key` reads from `input`, if ` key ` occurs in it.
pub fn extract_value(input: &str, key: &str) -> (r: Option<String>)
    ensures
        match extracted_value(input@, key@) {
            None => r is None,
            Some(v) => r matches Some(s) && s@ == v,
        },
{
    let pattern = key_pattern_bytes(key);
    let bytes = input.as_bytes();
    let pat = pattern.as_slice();
    assert(bytes@ == encode_utf8(input@));
    assert(pat@ == key_pattern(key@));
    let found = find_bytes(bytes, pat);
    let ghost spec_found = find_from(encode_utf8(input@), key_pattern(key@), 0);
    let hay_len = bytes.len();
    match found {
        None => {
            assert(spec_found is None);
            None
        },
        Some(index) => {
            proof {
                lemma_found_occurs(bytes@, pat@, 0);
                assert(spec_found == Some(index as int));
            }
            assert(index + pattern.len() <= hay_len);
            Some(token_from(input, index + pattern.len()))
        },
    }
}

/// Whether `c` is one of the ASCII digits `0` to `9`.
pub open spec fn is_decimal_digit(c: char) -> bool {
    48 <= (c as u32) <= 57
}

/// The number that the decimal digits `ds` write.
pub open spec fn decimal_value(ds: Seq<char>) -> int
    decreases ds.len(),
{
    if ds.len() == 0 {
        0
    } else {
        decimal_value(ds.drop_last()) * 10 + ((ds.last() as u32) - 48)
    }
}

/// The `i32` that `text` writes in decimal: an optional `+` or `-` and then
/// one or more digits, with a value in the range of `i32`; `None` for any
/// other text, as `i32::from_str` documents it.
pub open spec fn parsed_i32(text: Seq<char>) -> Option<i32> {
    let signed = text.len() > 0 && (text[0] == '-' || text[0] == '+');
    let digits = if signed {
        text.drop_first()
    } else {
        text
    };
    let magnitude = decimal_value(digits);
    let value = if text.len() > 0 && text[0] == '-' {
        -magnitude
    } else {
        magnitude
    };
    if digits.len() > 0 && (forall|i: int| 0 <= i < digits.len() ==> is_decimal_digit(#[trigger] digits[i]))
        && i32::MIN <= value <= i32::MAX {
        Some(value as i32)
    } else {
        None
    }
}

/// Calls `str::parse::<i32>` (that is, `i32::from_str`); the contract claims
/// that it gives the value that std documents for the text, `parsed_i32`,
/// and an error exactly where that is `None`.
#[verifier::external_body]
fn parse_i32(text: &str) -> (r: Option<i32>)
    ensures
        r == parsed_i32(text@),
{
    text.parse::<i32>().ok()
}

/// The `u64` that `text` writes in decimal: an optional `+` and then one or
/// more digits, with a value in the range of `u64`; `None` for any other
/// text, as `u64::from_str` documents it.
pub open spec fn parsed_u64(text: Seq<char>) -> Option<u64> {
    let digits = if text.len() > 0 && text[0] == '+' {
        text.drop_first()
    } else {
        text
    };
    if digits.len() > 0 && (forall|i: int| 0 <= i < digits.len() ==> is_decimal_digit(#[trigger] digits[i]))
        && decimal_value(digits) <= u64::MAX {
        Some(decimal_value(digits) as u64)
    } else {
        None
    }
}

/// Calls `str::parse::<u64>` (that is, `u64::from_str`); the contract claims
/// that it gives the value that std documents for the text, `parsed_u64`,
/// and an error exactly where that is `None`.
#[verifier::external_body]
fn parse_u64(text: &str) -> (r: Option<u64>)
    ensures
        r == parsed_u64(text@),
{
    text.parse::<u64>().ok()
}

/// The `bool` that `text` writes: `true` or `false`, and nothing else, as
/// `bool::from_str` documents it.
pub open spec fn parsed_bool(text: Seq<char>) -> Option<bool> {
    if text == "true"@ {
        Some(true)
    } else if text == "false"@ {
        Some(false)
    } else {
        None
    }
}

/// A type whose values a rule can read from the text of an option.
pub trait RuleValue: Sized {
    /// Whether `text` writes a value of this type.
    spec fn parses(text: Seq<char>) -> bool;

    /// Whether `value` is the value that `text` writes.
    spec fn denotes(text: Seq<char>, value: Self) -> bool;

    /// The value that `text` writes, if it writes one.
    fn parse_value(text: &str) -> (r: Option<Self>)
        ensures
            r is Some <==> Self::parses(text@),
            r matches Some(v) ==> Self::denotes(text@, v),
    ;
}

impl RuleValue for i32 {
    open spec fn parses(text: Seq<char>) -> bool {
        parsed_i32(text) is Some
    }

    open spec fn denotes(text: Seq<char>, value: i32) -> bool {
        parsed_i32(text) == Some(value)
    }

    fn parse_value(text: &str) -> (r: Option<i32>) {
        parse_i32(text)
    }
}

impl RuleValue for u64 {
    open spec fn parses(text: Seq<char>) -> bool {
        parsed_u64(text) is Some
    }

    open spec fn denotes(text: Seq<char>, value: u64) -> bool {
        parsed_u64(text) == Some(value)
    }

    fn parse_value(text: &str) -> (r: Option<u64>) {
        parse_u64(text)
    }
}

impl RuleValue for bool {
    open spec fn parses(text: Seq<char>) -> bool {
        parsed_bool(text) is Some
    }

    open spec fn denotes(text: Seq<char>, value: bool) -> bool {
        parsed_bool(text) == Some(value)
    }

    fn parse_value(text: &str) -> (r: Option<bool>) {
        let owned = text.to_owned();
        if owned == "true".to_owned() {
            Some(true)
        } else if owned == "false".to_owned() {
            Some(false)
        } else {
            None
        }
    }
}

impl RuleValue for String {
    open spec fn parses(text: Seq<char>) -> bool {
        true
    }

    open spec fn denotes(text: Seq<char>, value: String) -> bool {
        value@ == text
    }

    fn parse_value(text: &str) -> (r: Option<String>)
        ensures
            r matches Some(v) && v@ == text@,
    {
        Some(text.to_owned())
    }
}

/// A text rule's value is exactly the token it reads, whatever its length:
/// every string is read back as itself, and a string that some text denotes
/// is that text.
pub proof fn lemma_string_value_is_token(text: Seq<char>, v: String)
    ensures
        <String as RuleValue>::parses(text),
        <String as RuleValue>::denotes(v@, v),
        <String as RuleValue>::denotes(text, v) ==> v@ == text,
        <String as RuleValue>::denotes(text, v) ==> v@.len() == text.len(),
{
}

/// A rule that reads an option from a command line into a configuration.
pub trait RuleApplier<TConfig> {
    /// Whether `apply` completes on `input`; it panics where this is false.
    spec fn accepts(&self, input: Seq<char>) -> bool;

    /// Whether `after` is a configuration that applying the rule to
    /// `before` on `input` can give.
    spec fn applies(&self, before: TConfig, input: Seq<char>, after: TConfig) -> bool;

    /// Reads the rule's option from `input` into `config`.
    fn apply(&self, config: &mut TConfig, input: &str)
        requires
            self.accepts(input@),
        ensures
            self.applies(*old(config), input@, *final(config)),
    ;
}

/// A rule for the option ` key value `: the value is read as a `Value` and
/// handed, with the configuration, to `extractor`, which gives the new
/// configuration.
#[verifier::reject_recursive_types(TConfig)]
#[verifier::reject_recursive_types(Value)]
pub struct Rule<TConfig, Value, Extractor> where Extractor: Fn(TConfig, Value) -> TConfig {
    key: String,
    extractor: Extractor,
    _marker: PhantomData<(TConfig, Value)>,
}

impl<TConfig, Value, Extractor> Rule<TConfig, Value, Extractor> where
    Extractor: Fn(TConfig, Value) -> TConfig,
 {
    /// The option's key.
    pub closed spec fn key_view(&self) -> Seq<char> {
        self.key@
    }

    /// The function that stores a value into a configuration.
    pub closed spec fn extractor_view(&self) -> Extractor {
        self.extractor
    }

    /// A rule for the option `key`, stored by `extractor`.
    pub fn new(key: String, extractor: Extractor) -> (r: Self)
        ensures
            r.key_view() == key@,
            r.extractor_view() == extractor,
    {
        Rule { key, extractor, _marker: PhantomData }
    }
}

impl<TConfig: Default, Value: RuleValue, Extractor> RuleApplier<TConfig> for Rule<
    TConfig,
    Value,
    Extractor,
> where Extractor: Fn(TConfig, Value) -> TConfig {
    open spec fn accepts(&self, input: Seq<char>) -> bool {
        &&& forall|c: TConfig, v: Value| call_requires(self.extractor_view(), (c, v))
        &&& match extracted_value(input, self.key_view()) {
            None => true,
            Some(text) => Value::parses(text),
        }
    }

    open spec fn applies(&self, before: TConfig, input: Seq<char>, after: TConfig) -> bool {
        match extracted_value(input, self.key_view()) {
            None => after == before,
            Some(text) => exists|v: Value|
                Value::denotes(text, v) && call_ensures(self.extractor_view(), (before, v), after),
        }
    }

    fn apply(&self, config: &mut TConfig, input: &str) {
        match extract_value(input, self.key.as_str()) {
            None => {},
            Some(text) => {
                match Value::parse_value(text.as_str()) {
                    Some(value) => {
                        let mut current = TConfig::default();
                        core::mem::swap(&mut current, config);
                        assert(call_requires(self.extractor_view(), (current, value)));
                        *config = (self.extractor)(current, value);
                    },
                    None => {
                        // `accepts` asks that the value parses.
                        assert(false);
                    },
                }
            },
        }
    }
}

impl<TConfig: Default, Value: RuleValue, Extractor> Rule<TConfig, Value, Extractor> where
    Extractor: Fn(TConfig, Value) -> TConfig,
 {
    /// A rule accepts an input where its extractor can be called, and where
    /// its key, if it occurs, is followed by text that parses.
    pub proof fn lemma_accepts(&self, input: Seq<char>)
        ensures
            self.accepts(input) == ((forall|c: TConfig, v: Value| call_requires(self.extractor_view(), (c, v)))
                && match extracted_value(input, self.key_view()) {
                None => true,
                Some(text) => Value::parses(text),
            }),
    {
    }

    /// The key is read trimmed: two rules with the same extractor whose keys
    /// are equal once trimmed accept the same inputs and apply alike.
    pub proof fn lemma_trimmed_keys_agree(&self, other: &Self, before: TConfig, input: Seq<char>, after: TConfig)
        requires
            trimmed(self.key_view()) == trimmed(other.key_view()),
            self.extractor_view() == other.extractor_view(),
        ensures
            self.accepts(input) == other.accepts(input),
            self.applies(before, input, after) == other.applies(before, input, after),
    {
        assert(key_pattern(self.key_view()) == key_pattern(other.key_view()));
    }

    /// A rule leaves the configuration as it is where its key does not
    /// occur, and else gives what the extractor gives for the value read.
    pub proof fn lemma_applies(&self, before: TConfig, input: Seq<char>, after: TConfig)
        ensures
            self.applies(before, input, after) == match extracted_value(input, self.key_view()) {
                None => after == before,
                Some(text) => exists|v: Value|
                    Value::denotes(text, v) && call_ensures(self.extractor_view(), (before, v), after),
            },
    {
    }
}

/// A boxed rule applies as the rule in the box.
impl<TConfig, R: RuleApplier<TConfig> + ?Sized> RuleApplier<TConfig> for Box<R> {
    open spec fn accepts(&self, input: Seq<char>) -> bool {
        (**self).accepts(input)
    }

    open spec fn applies(&self, before: TConfig, input: Seq<char>, after: TConfig) -> bool {
        (**self).applies(before, input, after)
    }

    fn apply(&self, config: &mut TConfig, input: &str) {
        (**self).apply(config, input);
    }
}

/// Reads a configuration from a command line by applying its rules in turn.
/// The rules are of one type `R`; by default any boxed rule.
#[verifier::reject_recursive_types(TConfig)]
pub struct Parser<TConfig: Default, R: RuleApplier<TConfig> = Box<dyn RuleApplier<TConfig>>> {
    rules: Vec<R>,
    _marker: TConfig,
}

impl<TConfig: Default, R: RuleApplier<TConfig>> Parser<TConfig, R> {
    /// The parser's rules, in the order in which they were added.
    pub closed spec fn rules_view(&self) -> Seq<R> {
        self.rules@
    }

    /// The default configuration that the parser was made with.
    pub closed spec fn marker(&self) -> TConfig {
        self._marker
    }

    /// Whether `trace` is a run of the parser's rules on `input`: one
    /// configuration before each rule and one after the last, each obtained
    /// from the one before by the rule between them.
    pub open spec fn is_run(&self, input: Seq<char>, trace: Seq<TConfig>) -> bool {
        &&& trace.len() == self.rules_view().len() + 1
        &&& forall|i: int|
            0 <= i < self.rules_view().len() ==> #[trigger] self.rules_view()[i].applies(
                trace[i],
                input,
                trace[i + 1],
            )
    }

    /// Two runs of the parser on the same input from the same configuration
    /// agree where each rule has at most one outcome for a configuration
    /// and an input.
    pub proof fn lemma_runs_agree(&self, input: Seq<char>, t1: Seq<TConfig>, t2: Seq<TConfig>)
        requires
            self.is_run(input, t1),
            self.is_run(input, t2),
            t1[0] == t2[0],
            forall|i: int, b: TConfig, a1: TConfig, a2: TConfig|
                0 <= i < self.rules_view().len() && #[trigger] self.rules_view()[i].applies(b, input, a1)
                    && #[trigger] self.rules_view()[i].applies(b, input, a2) ==> a1 == a2,
        ensures
            t1 == t2,
    {
        self.lemma_runs_agree_upto(input, t1, t2, self.rules_view().len() as int);
        assert(t1 =~= t2);
    }

    proof fn lemma_runs_agree_upto(&self, input: Seq<char>, t1: Seq<TConfig>, t2: Seq<TConfig>, k: int)
        requires
            self.is_run(input, t1),
            self.is_run(input, t2),
            t1[0] == t2[0],
            0 <= k <= self.rules_view().len(),
            forall|i: int, b: TConfig, a1: TConfig, a2: TConfig|
                0 <= i < self.rules_view().len() && #[trigger] self.rules_view()[i].applies(b, input, a1)
                    && #[trigger] self.rules_view()[i].applies(b, input, a2) ==> a1 == a2,
        ensures
            forall|j: int| 0 <= j <= k ==> #[trigger] t1[j] == t2[j],
        decreases k,
    {
        if k > 0 {
            self.lemma_runs_agree_upto(input, t1, t2, k - 1);
            let i = k - 1;
            assert(self.rules_view()[i].applies(t1[i], input, t1[i + 1]));
            assert(self.rules_view()[i].applies(t2[i], input, t2[i + 1]));
            assert(t1[i] == t2[i]);
        }
    }

    /// A parser without rules, holding a default configuration.
    pub fn new() -> (r: Self)
        ensures
            r.rules_view().len() == 0,
            call_ensures(TConfig::default, (), r.marker()),
    {
        Parser { rules: Vec::new(), _marker: TConfig::default() }
    }

    /// Adds `rule` after the parser's rules; returns the parser, so that
    /// calls chain.
    pub fn add_rule(&mut self, rule: R) -> (r: &mut Self)
        ensures
            (*r).rules_view() == old(self).rules_view().push(rule),
            (*r).marker() == old(self).marker(),
            *final(self) == *final(r),
    {
        self.rules.push(rule);
        self
    }

    /// The configuration that the rules read from `input`, each applied in
    /// turn to a default configuration.
    pub fn generate(&self, input: &str) -> (r: TConfig)
        requires
            forall|i: int| 0 <= i < self.rules_view().len() ==> #[trigger] self.rules_view()[i].accepts(input@),
        ensures
            exists|trace: Seq<TConfig>|
                {
                    &&& self.is_run(input@, trace)
                    &&& call_ensures(TConfig::default, (), trace[0])
                    &&& r == trace.last()
                },
    {
        let mut config = TConfig::default();
        let ghost mut trace: Seq<TConfig> = seq![config];
        let mut i: usize = 0;
        while i < self.rules.len()
            invariant
                i <= self.rules@.len(),
                forall|j: int| 0 <= j < self.rules_view().len() ==> #[trigger] self.rules_view()[j].accepts(input@),
                trace.len() == i + 1,
                call_ensures(TConfig::default, (), trace[0]),
                config == trace.last(),
                forall|j: int| 0 <= j < i ==> #[trigger] self.rules_view()[j].applies(trace[j], input@, trace[j + 1]),
            decreases self.rules.len() - i,
        {
            let rule = &self.rules[i];
            assert(self.rules_view()[i as int].accepts(input@));
            rule.apply(&mut config, input);
            proof {
                trace = trace.push(config);
            }
            i = i + 1;
        }
        assert(self.is_run(input@, trace));
        config
    }
}

/// The value of the option `key` in `input`, read by a parser with a single
/// rule: nothing where ` key ` does not occur, else the value that the token
/// after it writes.
pub fn option_value<Value: RuleValue>(input: &str, key: String) -> (r: Option<Value>)
    requires
        extracted_value(input@, key@) matches Some(text) ==> Value::parses(text),
    ensures
        match extracted_value(input@, key@) {
            None => r is None,
            Some(text) => r matches Some(v) && Value::denotes(text, v),
        },
{
    let rule = Rule::new(key, |_current: Option<Value>, value: Value| -> (r: Option<Value>)
        ensures
            r == Some(value),
        {
            Some(value)
        });
    let ghost added = rule;
    let mut parser = Parser::new();
    parser.add_rule(rule);
    assert(parser.rules_view()[0] == added);
    proof {
        added.lemma_accepts(input@);
    }
    let r = parser.generate(input);
    proof {
        let trace = choose|trace: Seq<Option<Value>>|
            {
                &&& parser.is_run(input@, trace)
                &&& call_ensures(Option::<Value>::default, (), trace[0])
                &&& r == trace.last()
            };
        assert(parser.rules_view()[0].applies(trace[0], input@, trace[1]));
        added.lemma_applies(trace[0], input@, trace[1]);
    }
    r
}

} // verus!
