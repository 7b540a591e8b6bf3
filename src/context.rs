//! Template context: typed values set by `name:value` directives, where a
//! later directive for the same name replaces an earlier one.

use vstd::prelude::*;
use vstd::string::*;
use crate::text::{has_prefix, starts_with_str, str_eq, to_owned_string, trim, trimmed};

verus! {

/// A value in the template context.
#[derive(Clone, Debug, PartialEq, Eq)]
pub enum CtxValue {
    Bool(bool),
    Int(i64),
    Str(String),
}

/// What a context value means.
pub enum ValueView {
    Bool(bool),
    Int(int),
    Str(Seq<char>),
}

impl CtxValue {
    pub open spec fn view(&self) -> ValueView {
        match self {
            CtxValue::Bool(b) => ValueView::Bool(*b),
            CtxValue::Int(n) => ValueView::Int(*n as int),
            CtxValue::Str(s) => ValueView::Str(s@),
        }
    }
}

// ----- integer syntax -----

pub open spec fn is_digit(c: char) -> bool {
    '0' <= c <= '9'
}

pub open spec fn all_digits(s: Seq<char>) -> bool {
    s.len() > 0 && forall|i: int| 0 <= i < s.len() ==> is_digit(#[trigger] s[i])
}

pub open spec fn digits_value(s: Seq<char>) -> int
    decreases s.len(),
{
    if s.len() == 0 {
        0
    } else {
        digits_value(s.drop_last()) * 10 + (s.last() as int - '0' as int)
    }
}

/// The decimal number `s` spells: an optional `+` or `-`, then at least one
/// ASCII digit, and nothing else; `None` when malformed or outside `i64`.
pub open spec fn parsed_i64(s: Seq<char>) -> Option<int> {
    let neg = s.len() > 0 && s[0] == '-';
    let signed = s.len() > 0 && (s[0] == '-' || s[0] == '+');
    let digits = if signed { s.drop_first() } else { s };
    if !all_digits(digits) {
        None
    } else {
        let v = if neg { -digits_value(digits) } else { digits_value(digits) };
        if i64::MIN <= v <= i64::MAX {
            Some(v)
        } else {
            None
        }
    }
}

proof fn lemma_digits_value_grows(s: Seq<char>, k: int)
    requires
        all_digits(s),
        0 < k <= s.len(),
    ensures
        digits_value(s) >= digits_value(s.subrange(0, k)),
        digits_value(s.subrange(0, k)) >= 0,
    decreases s.len(),
{
    if k < s.len() {
        assert(all_digits(s.drop_last())) by {
            assert forall|i: int| 0 <= i < s.drop_last().len() implies is_digit(#[trigger] s.drop_last()[i]) by {
                assert(s.drop_last()[i] == s[i]);
            }
        }
        lemma_digits_value_grows(s.drop_last(), k);
        assert(s.drop_last().subrange(0, k) =~= s.subrange(0, k));
        assert(is_digit(s.last()));
    } else {
        assert(s.subrange(0, k) =~= s);
        lemma_digits_nonneg(s);
    }
}

proof fn lemma_digits_nonneg(s: Seq<char>)
    requires
        forall|i: int| 0 <= i < s.len() ==> is_digit(#[trigger] s[i]),
    ensures
        digits_value(s) >= 0,
    decreases s.len(),
{
    if s.len() > 0 {
        assert(is_digit(s[s.len() - 1]));
        lemma_digits_nonneg(s.drop_last());
    }
}

/// Parses a signed 64-bit decimal integer.
pub fn parse_i64(s: &str) -> (r: Option<i64>)
    ensures
        r matches Some(v) ==> parsed_i64(s@) == Some(v as int),
        r is None ==> parsed_i64(s@) is None,
{
    let n = s.unicode_len();
    if n == 0 {
        return None;
    }
    let first = s.get_char(0);
    let neg = first == '-';
    let start: usize = if first == '-' || first == '+' {
        1
    } else {
        0
    };
    if start == n {
        return None;
    }
    let ghost digits = s@.subrange(start as int, n as int);
    assert(digits =~= if start == 1 { s@.drop_first() } else { s@ });
    // magnitude bound: 2^63 for a negative number, 2^63 - 1 otherwise
    let limit: u64 = if neg {
        9223372036854775808
    } else {
        9223372036854775807
    };
    let mut acc: u64 = 0;
    let mut i: usize = start;
    while i < n
        invariant
            n == s@.len(),
            start <= i <= n,
            start < n,
            digits == s@.subrange(start as int, n as int),
            forall|j: int| 0 <= j < i - start ==> is_digit(#[trigger] digits[j]),
            acc as int == digits_value(digits.subrange(0, i - start)),
            acc <= limit,
            limit == if neg { 9223372036854775808u64 } else { 9223372036854775807u64 },
            neg == (s@[0] == '-'),
            digits == (if s@[0] == '-' || s@[0] == '+' { s@.drop_first() } else { s@ }),
        decreases n - i,
    {
        let c = s.get_char(i);
        assert(digits[i - start] == c);
        if !('0' <= c && c <= '9') {
            assert(!is_digit(digits[i - start]));
            assert(!all_digits(digits));
            return None;
        }
        let d: u64 = (c as u32 - '0' as u32) as u64;
        assert(d <= 9);
        assert(d as int == c as int - '0' as int);
        assert(digits.subrange(0, i + 1 - start).last() == c);
        assert(digits.subrange(0, i + 1 - start).drop_last() =~= digits.subrange(0, i - start));
        if acc > (limit - d) / 10 {
            proof {
                assert(acc * 10 + d > limit) by (nonlinear_arith)
                    requires
                        acc > (limit - d) / 10,
                        d <= 9,
                        limit >= 9,
                ;
                // every later digit keeps the value at least as large
                assert forall|j: int| 0 <= j < i + 1 - start implies is_digit(#[trigger] digits[j]) by {}
                if all_digits(digits) {
                    lemma_digits_value_grows(digits, i + 1 - start);
                    assert(digits_value(digits) > limit);
                }
            }
            return None;
        }
        proof {
            assert(acc * 10 + d <= limit) by (nonlinear_arith)
                requires
                    acc <= (limit - d) / 10,
                    d <= 9,
                    limit >= 9,
            ;
        }
        acc = acc * 10 + d;
        i = i + 1;
    }
    assert(digits.subrange(0, n - start) =~= digits);
    if neg {
        if acc == 9223372036854775808 {
            Some(i64::MIN)
        } else {
            Some(-(acc as i64))
        }
    } else {
        Some(acc as i64)
    }
}

// ----- directives -----

/// The value a directive's text stands for: `true`/`false`, then a 64-bit
/// integer, else the text itself.
pub open spec fn inferred(v: Seq<char>) -> ValueView {
    if v == seq!['t', 'r', 'u', 'e'] {
        ValueView::Bool(true)
    } else if v == seq!['f', 'a', 'l', 's', 'e'] {
        ValueView::Bool(false)
    } else if let Some(n) = parsed_i64(v) {
        ValueView::Int(n)
    } else {
        ValueView::Str(v)
    }
}

/// Infers the type of a directive value.
pub fn infer_value(v: &str) -> (r: CtxValue)
    ensures
        r.view() == inferred(v@),
{
    proof {
        reveal_strlit("true");
        reveal_strlit("false");
    }
    let t = "true";
    let f = "false";
    assert(t@ =~= seq!['t', 'r', 'u', 'e']);
    assert(f@ =~= seq!['f', 'a', 'l', 's', 'e']);
    if str_eq(v, t) {
        return CtxValue::Bool(true);
    }
    if str_eq(v, f) {
        return CtxValue::Bool(false);
    }
    match parse_i64(v) {
        Some(n) => CtxValue::Int(n),
        None => CtxValue::Str(to_owned_string(v)),
    }
}

/// Index of the first `:` in `s`.
pub open spec fn first_colon(s: Seq<char>) -> Option<int> {
    if exists|i: int| 0 <= i < s.len() && s[i] == ':' {
        Some(choose|i: int| 0 <= i < s.len() && s[i] == ':' && forall|j: int| 0 <= j < i ==> s[j] != ':')
    } else {
        None
    }
}

/// Value of the environment variable `name` in a snapshot of the
/// environment: the first pair with that name.
pub open spec fn env_lookup(env: Seq<(Seq<char>, Seq<char>)>, name: Seq<char>) -> Option<Seq<char>>
    decreases env.len(),
{
    if env.len() == 0 {
        None
    } else if env[0].0 == name {
        Some(env[0].1)
    } else {
        env_lookup(env.drop_first(), name)
    }
}

pub open spec fn env_view(env: Seq<(String, String)>) -> Seq<(Seq<char>, Seq<char>)> {
    env.map_values(|p: (String, String)| (p.0@, p.1@))
}

/// The value a directive's (trimmed) value text sets: `env:VAR` reads `VAR`
/// and sets nothing when it is unset.
pub open spec fn value_effect(value: Seq<char>, env: Seq<(Seq<char>, Seq<char>)>) -> Option<ValueView> {
    if has_prefix(value, seq!['e', 'n', 'v', ':']) {
        match env_lookup(env, value.subrange(4, value.len() as int)) {
            Some(v) => Some(inferred(v)),
            None => None,
        }
    } else {
        Some(inferred(value))
    }
}

/// What a directive sets: its name and value, or nothing when it has no `:`,
/// an empty name, or names an unset environment variable.
pub open spec fn directive_effect(
    data: Seq<char>,
    env: Seq<(Seq<char>, Seq<char>)>,
) -> Option<(Seq<char>, ValueView)> {
    match first_colon(data) {
        None => None,
        Some(i) => {
            let name = trimmed(data.subrange(0, i));
            let value = trimmed(data.subrange(i + 1, data.len() as int));
            if name.len() == 0 {
                None
            } else {
                match value_effect(value, env) {
                    Some(v) => Some((name, v)),
                    None => None,
                }
            }
        },
    }
}

fn find_colon(s: &str) -> (r: Option<usize>)
    ensures
        r matches Some(i) ==> first_colon(s@) == Some(i as int) && i < s@.len() && s@[i as int] == ':',
        r is None ==> first_colon(s@) is None,
{
    let n = s.unicode_len();
    let mut i: usize = 0;
    while i < n
        invariant
            n == s@.len(),
            i <= n,
            forall|j: int| 0 <= j < i ==> s@[j] != ':',
        decreases n - i,
    {
        if s.get_char(i) == ':' {
            let ghost k = choose|k: int| 0 <= k < s@.len() && s@[k] == ':' && forall|j: int| 0 <= j < k ==> s@[j] != ':';
            assert(k == i) by {
                if k < i {
                } else if k > i {
                }
            }
            return Some(i);
        }
        i = i + 1;
    }
    None
}

fn lookup_env<'a>(env: &'a Vec<(String, String)>, name: &str) -> (r: Option<&'a String>)
    ensures
        r matches Some(v) ==> env_lookup(env_view(env@), name@) == Some(v@),
        r is None ==> env_lookup(env_view(env@), name@) is None,
{
    let mut i: usize = 0;
    assert(env_view(env@).skip(0) =~= env_view(env@));
    while i < env.len()
        invariant
            i <= env@.len(),
            env_lookup(env_view(env@), name@) == env_lookup(env_view(env@).skip(i as int), name@),
        decreases env@.len() - i,
    {
        let ghost rest = env_view(env@).skip(i as int);
        assert(rest[0] == (env@[i as int].0@, env@[i as int].1@));
        if str_eq(env[i].0.as_str(), name) {
            return Some(&env[i].1);
        }
        assert(rest.drop_first() =~= env_view(env@).skip(i + 1));
        i = i + 1;
    }
    None
}

fn value_of(value: &str, env: &Vec<(String, String)>) -> (r: Option<CtxValue>)
    ensures
        r matches Some(v) ==> value_effect(value@, env_view(env@)) == Some(v.view()),
        r is None ==> value_effect(value@, env_view(env@)) is None,
{
    proof {
        reveal_strlit("env:");
    }
    let prefix = "env:";
    assert(prefix@ =~= seq!['e', 'n', 'v', ':']);
    if starts_with_str(value, prefix) {
        let var = value.substring_char(4, value.unicode_len());
        match lookup_env(env, var) {
            Some(v) => Some(infer_value(v.as_str())),
            None => None,
        }
    } else {
        Some(infer_value(value))
    }
}

/// The map that a list of distinct named entries stands for.
pub open spec fn entries_map(es: Seq<(String, CtxValue)>) -> Map<Seq<char>, ValueView> {
    Map::new(
        |k: Seq<char>| exists|i: int| 0 <= i < es.len() && es[i].0@ == k,
        |k: Seq<char>| {
            let i = choose|i: int| 0 <= i < es.len() && es[i].0@ == k;
            es[i].1.view()
        },
    )
}

/// A template context: names mapped to typed values, no name twice.
pub struct TemplateContext {
    entries: Vec<(String, CtxValue)>,
}

impl TemplateContext {
    pub closed spec fn view(&self) -> Map<Seq<char>, ValueView> {
        entries_map(self.entries@)
    }

    pub closed spec fn wf(&self) -> bool {
        forall|i: int, j: int|
            0 <= i < j < self.entries@.len() ==> self.entries@[i].0@ != self.entries@[j].0@
    }

    /// An empty context.
    pub fn new() -> (r: TemplateContext)
        ensures
            r.wf(),
            r.view() == Map::<Seq<char>, ValueView>::empty(),
    {
        let r = TemplateContext { entries: Vec::new() };
        assert(r.view() =~= Map::<Seq<char>, ValueView>::empty());
        r
    }

    /// Sets `name` to `value`, replacing what it held.
    pub fn insert(&mut self, name: String, value: CtxValue)
        requires
            old(self).wf(),
        ensures
            final(self).wf(),
            final(self).view() == old(self).view().insert(name@, value.view()),
    {
        let ghost old_entries = self.entries@;
        let mut i: usize = 0;
        while i < self.entries.len()
            invariant
                self.entries@ == old_entries,
                old(self).entries@ == old_entries,
                self.wf(),
                i <= self.entries@.len(),
                forall|j: int| 0 <= j < i ==> self.entries@[j].0@ != name@,
            decreases self.entries@.len() - i,
        {
            if self.entries[i].0 == name {
                let ghost before = self.view();
                self.entries.set(i, (name, value));
                proof {
                    assert forall|j: int| 0 <= j < self.entries@.len() implies #[trigger] self.entries@[j].0@ == old_entries[j].0@ by {}
                    assert forall|a: int, b: int| 0 <= a < b < self.entries@.len() implies self.entries@[a].0@ != self.entries@[b].0@ by {
                        assert(old_entries[a].0@ != old_entries[b].0@);
                    }
                    let m = self.view();
                    let target = before.insert(name@, value.view());
                    assert forall|k| m.contains_key(k) <==> target.contains_key(k) by {
                        if m.contains_key(k) {
                            let j = choose|j: int| 0 <= j < self.entries@.len() && self.entries@[j].0@ == k;
                            if j != i {
                                assert(old_entries[j].0@ == k);
                            }
                        }
                        if before.contains_key(k) {
                            let j = choose|j: int| 0 <= j < old_entries.len() && old_entries[j].0@ == k;
                            assert(self.entries@[j].0@ == k);
                        }
                        if k == name@ {
                            assert(self.entries@[i as int].0@ == k);
                        }
                    }
                    assert forall|k| m.contains_key(k) implies m[k] == target[k] by {
                        let j = choose|j: int| 0 <= j < self.entries@.len() && self.entries@[j].0@ == k;
                        if k == name@ {
                            assert(j == i);
                        } else {
                            let j2 = choose|j2: int| 0 <= j2 < old_entries.len() && old_entries[j2].0@ == k;
                            assert(j2 == j);
                        }
                    }
                    assert(m =~= target);


                }
                return;
            }
            i = i + 1;
        }
        let ghost before = self.view();
        self.entries.push((name, value));
        proof {
            let m = self.view();
            let target = before.insert(name@, value.view());
            let last = old_entries.len() as int;
            assert forall|k| m.contains_key(k) <==> target.contains_key(k) by {
                if m.contains_key(k) {
                    let j = choose|j: int| 0 <= j < self.entries@.len() && self.entries@[j].0@ == k;
                    if j != last {
                        assert(old_entries[j].0@ == k);
                    }
                }
                if before.contains_key(k) {
                    let j = choose|j: int| 0 <= j < old_entries.len() && old_entries[j].0@ == k;
                    assert(self.entries@[j].0@ == k);
                }
                if k == name@ {
                    assert(self.entries@[last].0@ == k);
                }
            }
            assert forall|k| m.contains_key(k) implies m[k] == target[k] by {
                let j = choose|j: int| 0 <= j < self.entries@.len() && self.entries@[j].0@ == k;
                if k == name@ {
                    assert(j == last);
                } else {
                    let j2 = choose|j2: int| 0 <= j2 < old_entries.len() && old_entries[j2].0@ == k;
                    assert(j2 == j);
                }
            }
            assert(m =~= target);
        }
    }

    /// Applies one `name:value` directive: the value is inferred as a bool,
    /// then an `i64`, else kept as text; `name:env:VAR` takes the value of
    /// `VAR` from `env` and is dropped when it is unset. A directive without
    /// `:` or with an empty name is ignored.
    pub fn set_context_value(&mut self, data: &str, env: &Vec<(String, String)>)
        requires
            old(self).wf(),
        ensures
            final(self).wf(),
            final(self).view() == match directive_effect(data@, env_view(env@)) {
                Some((k, v)) => old(self).view().insert(k, v),
                None => old(self).view(),
            },
    {
        let colon = match find_colon(data) {
            Some(i) => i,
            None => return,
        };
        let n = data.unicode_len();
        let name_raw = data.substring_char(0, colon);
        let value_raw = data.substring_char(colon + 1, n);
        let name = trim(name_raw);
        let value = trim(value_raw);
        if name.unicode_len() == 0 {
            return;
        }
        match value_of(value, env) {
            Some(v) => self.insert(to_owned_string(name), v),
            None => {},
        }
    }
}

/// The context after applying `directives` in order.
pub open spec fn apply_directives(
    m: Map<Seq<char>, ValueView>,
    directives: Seq<Seq<char>>,
    env: Seq<(Seq<char>, Seq<char>)>,
) -> Map<Seq<char>, ValueView>
    decreases directives.len(),
{
    if directives.len() == 0 {
        m
    } else {
        let before = apply_directives(m, directives.drop_last(), env);
        match directive_effect(directives.last(), env) {
            Some((k, v)) => before.insert(k, v),
            None => before,
        }
    }
}

impl TemplateContext {
    /// Applies each directive in order.
    pub fn apply_all(&mut self, directives: &Vec<String>, env: &Vec<(String, String)>)
        requires
            old(self).wf(),
        ensures
            final(self).wf(),
            final(self).view() == apply_directives(
                old(self).view(),
                crate::text::views(directives@),
                env_view(env@),
            ),
    {
        let ghost start = self.view();
        let ghost ds = crate::text::views(directives@);
        let mut i: usize = 0;
        while i < directives.len()
            invariant
                self.wf(),
                ds == crate::text::views(directives@),
                i <= directives@.len(),
                self.view() == apply_directives(start, ds.subrange(0, i as int), env_view(env@)),
            decreases directives@.len() - i,
        {
            self.set_context_value(directives[i].as_str(), env);
            assert(ds.subrange(0, i + 1).drop_last() =~= ds.subrange(0, i as int));
            assert(ds.subrange(0, i + 1).last() == directives@[i as int]@);
            i = i + 1;
        }
        assert(ds.subrange(0, directives@.len() as int) =~= ds);
    }

    /// The value held under `name`, if any.
    pub fn get(&self, name: &str) -> (r: Option<&CtxValue>)
        requires
            self.wf(),
        ensures
            r matches Some(v) ==> self.view().contains_key(name@) && self.view()[name@] == v.view(),
            r is None ==> !self.view().contains_key(name@),
    {
        let mut i: usize = 0;
        while i < self.entries.len()
            invariant
                self.wf(),
                i <= self.entries@.len(),
                forall|j: int| 0 <= j < i ==> self.entries@[j].0@ != name@,
            decreases self.entries@.len() - i,
        {
            if str_eq(self.entries[i].0.as_str(), name) {
                proof {
                    let k = choose|k: int| 0 <= k < self.entries@.len() && self.entries@[k].0@ == name@;
                    if k != i {
                        assert(self.entries@[k].0@ != self.entries@[i as int].0@);
                    }
                }
                return Some(&self.entries[i].1);
            }
            i = i + 1;
        }
        None
    }

    /// The entries, in the order in which their names were first set.
    pub fn entries(&self) -> (r: &Vec<(String, CtxValue)>)
        requires
            self.wf(),
        ensures
            forall|i: int| 0 <= i < r@.len() ==> self.view().contains_key(#[trigger] r@[i].0@)
                && self.view()[r@[i].0@] == r@[i].1.view(),
            forall|k: Seq<char>| self.view().contains_key(k) ==> exists|i: int| 0 <= i < r@.len() && #[trigger] r@[i].0@ == k,
            forall|i: int, j: int| 0 <= i < j < r@.len() ==> r@[i].0@ != r@[j].0@,
    {
        assert forall|i: int| 0 <= i < self.entries@.len() implies self.view().contains_key(#[trigger] self.entries@[i].0@)
            && self.view()[self.entries@[i].0@] == self.entries@[i].1.view() by {
            let k = self.entries@[i].0@;
            let j = choose|j: int| 0 <= j < self.entries@.len() && self.entries@[j].0@ == k;
            if j != i {
                assert(self.entries@[j].0@ != self.entries@[i].0@);
            }
        }
        &self.entries
    }
}

/// A later directive for a name replaces an earlier one: applying `first`
/// and then `second`, where both name the same key and `second` takes
/// effect, leaves what `second` alone would.
pub proof fn lemma_last_write_wins(
    m: Map<Seq<char>, ValueView>,
    first: Seq<char>,
    second: Seq<char>,
    env: Seq<(Seq<char>, Seq<char>)>,
)
    requires
        directive_effect(second, env) is Some,
        directive_effect(first, env) is Some ==> directive_effect(first, env).unwrap().0
            == directive_effect(second, env).unwrap().0,
    ensures
        apply_directives(m, seq![first, second], env) == apply_directives(m, seq![second], env),
{
    reveal_with_fuel(apply_directives, 3);
    assert(seq![first, second].drop_last() =~= seq![first]);
    assert(seq![first].drop_last() =~= Seq::<Seq<char>>::empty());
    assert(seq![second].drop_last() =~= Seq::<Seq<char>>::empty());
    let (k, v) = directive_effect(second, env).unwrap();
    let after_first = apply_directives(m, seq![first], env);
    assert(apply_directives(m, seq![second], env) == m.insert(k, v));
    assert(apply_directives(m, seq![first, second], env) == after_first.insert(k, v));
    match directive_effect(first, env) {
        Some((k1, v1)) => {
            assert(after_first == m.insert(k1, v1));
            assert(m.insert(k1, v1).insert(k, v) =~= m.insert(k, v));
        },
        None => {
            assert(after_first == m);
        },
    }
}

/// A directive that reads an unset environment variable leaves the context
/// as it was.
pub proof fn lemma_unset_env_dropped(
    m: Map<Seq<char>, ValueView>,
    data: Seq<char>,
    env: Seq<(Seq<char>, Seq<char>)>,
    i: int,
)
    requires
        first_colon(data) == Some(i),
        has_prefix(trimmed(data.subrange(i + 1, data.len() as int)), seq!['e', 'n', 'v', ':']),
        ({
            let value = trimmed(data.subrange(i + 1, data.len() as int));
            env_lookup(env, value.subrange(4, value.len() as int)) is None
        }),
    ensures
        apply_directives(m, seq![data], env) == m,
{
    reveal_with_fuel(apply_directives, 2);
    assert(seq![data].drop_last() =~= Seq::<Seq<char>>::empty());
    assert(directive_effect(data, env) is None);
    assert(apply_directives(m, Seq::<Seq<char>>::empty(), env) == m);
}

} // verus!
