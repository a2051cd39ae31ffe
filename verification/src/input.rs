//! Typed input collection: the `INPUT_<NAME>` variables that the runner
//! sets for each workflow input, gathered under their lower-cased names, and
//! each raw value classified as the JSON value it is deserialized from.
use vstd::prelude::*;

use crate::error::{ActionError, ErrorContext};
use crate::scalar::{describes, json_text_is_valid, parse_scalar, scalar_kind, InputValue};
use crate::string_map::{entry_view, StringMap};
use crate::text::{ascii_lower, chars_of, lowercase, push_char};

verus! {

/// The prefix that marks an input variable.
pub open spec fn input_prefix() -> Seq<char> {
    seq!['I', 'N', 'P', 'U', 'T', '_']
}

/// The input name of a variable: the key without the `INPUT_` prefix,
/// ASCII lower-cased; none for a key without that prefix.
pub open spec fn input_name(key: Seq<char>) -> Option<Seq<char>> {
    if key.len() >= 6 && key.take(6) == input_prefix() {
        Some(lowercase(key.skip(6)))
    } else {
        None
    }
}

/// The inputs that a list of variables yields, in the order given: each
/// variable with the prefix is stored under its input name, a later one
/// replacing an earlier one with the same name; other variables are ignored.
pub open spec fn collected(vars: Seq<(Seq<char>, Seq<char>)>) -> Map<Seq<char>, Seq<char>>
    decreases vars.len(),
{
    if vars.len() == 0 {
        Map::empty()
    } else {
        let before = collected(vars.drop_last());
        match input_name(vars.last().0) {
            Some(name) => before.insert(name, vars.last().1),
            None => before,
        }
    }
}

/// The key under which an input with this name is set.
pub open spec fn input_key(name: Seq<char>) -> Seq<char> {
    input_prefix() + name
}

/// The ASCII lower-case form of a character.
pub fn to_ascii_lower(c: char) -> (r: char)
    ensures
        r == ascii_lower(c),
{
    if 'A' <= c && c <= 'Z' {
        let b: u8 = c as u8;
        let l: u8 = b + 32;
        assert(b as int == c as int);
        (l as char)
    } else {
        c
    }
}

/// The input name of a variable key (see `input_name`).
pub fn input_var_name(key: &str) -> (r: Option<String>)
    ensures
        match r {
            Some(n) => input_name(key@) == Some(n@),
            None => input_name(key@) is None,
        },
{
    let cs = chars_of(key);
    let n = cs.len();
    if n < 6 || cs[0] != 'I' || cs[1] != 'N' || cs[2] != 'P' || cs[3] != 'U' || cs[4] != 'T'
        || cs[5] != '_' {
        proof {
            if n >= 6 && key@.take(6) == input_prefix() {
                assert(key@.take(6)[0] == key@[0]);
                assert(key@.take(6)[1] == key@[1]);
                assert(key@.take(6)[2] == key@[2]);
                assert(key@.take(6)[3] == key@[3]);
                assert(key@.take(6)[4] == key@[4]);
                assert(key@.take(6)[5] == key@[5]);
            }
        }
        return None;
    }
    assert(key@.take(6) =~= input_prefix());
    let ghost rest = key@.skip(6);
    let mut out = String::new();
    let mut i: usize = 6;
    while i < n
        invariant
            6 <= i <= n,
            n == key@.len(),
            cs@ == key@,
            rest == key@.skip(6),
            out@ == lowercase(rest.take(i - 6)),
        decreases n - i,
    {
        let l = to_ascii_lower(cs[i]);
        push_char(&mut out, l);
        assert(rest.take(i + 1 - 6) =~= rest.take(i - 6).push(cs@[i as int]));
        assert(out@ =~= lowercase(rest.take(i + 1 - 6)));
        i = i + 1;
    }
    assert(rest.take(n - 6) =~= rest);
    Some(out)
}

/// The inputs among `vars`, taken in the order given (see `collected`).
pub fn collect_input_pairs(vars: &Vec<(String, String)>) -> (r: StringMap)
    ensures
        r@ == collected(vars@.map_values(|e: (String, String)| entry_view(e))),
{
    let ghost all = vars@.map_values(|e: (String, String)| entry_view(e));
    let mut out = StringMap::new();
    let mut i: usize = 0;
    while i < vars.len()
        invariant
            i <= vars.len(),
            all == vars@.map_values(|e: (String, String)| entry_view(e)),
            out@ == collected(all.take(i as int)),
        decreases vars.len() - i,
    {
        let (key, value) = &vars[i];
        assert(all.take(i + 1).drop_last() =~= all.take(i as int));
        assert(all.take(i + 1).last() == all[i as int]);
        assert(all[i as int] == (key@, value@));
        match input_var_name(key.as_str()) {
            Some(name) => {
                out.insert(name, value.clone());
            },
            None => {},
        }
        i = i + 1;
    }
    assert(all.take(vars.len() as int) =~= all);
    out
}

/// A source of environment variables for input parsing, so that a
/// deterministic map can stand in for the process environment.
pub trait EnvSource {
    /// The input variables, keyed by their lower-cased input names.
    fn collect_input_vars(&self) -> StringMap;
}

/// An in-memory environment. Raw `INPUT_<NAME>` keys are stored as given;
/// collection strips the prefix and lower-cases the rest the way the real
/// environment source does.
#[derive(Debug)]
pub struct MapEnv {
    pub vars: StringMap,
}

impl MapEnv {
    /// An empty environment.
    pub fn new() -> (r: Self)
        ensures
            r.vars@ == Map::<Seq<char>, Seq<char>>::empty(),
    {
        MapEnv { vars: StringMap::new() }
    }

    /// The environment with `INPUT_<name>` set to `value`.
    pub fn with(self, name: &str, value: &str) -> (r: Self)
        ensures
            r.vars@ == self.vars@.insert(input_key(name@), value@),
    {
        let mut env = self;
        let mut key = String::from_str("INPUT_");
        key.append(name);
        proof {
            reveal_strlit("INPUT_");
            assert("INPUT_"@ =~= input_prefix());
        }
        env.vars.insert(key, String::from_str(value));
        env
    }
}

impl Clone for MapEnv {
    /// A copy with the same variables.
    fn clone(&self) -> (r: Self)
        ensures
            r.vars.pairs() == self.vars.pairs(),
    {
        MapEnv { vars: self.vars.clone() }
    }
}

impl Default for MapEnv {
    /// An empty environment.
    fn default() -> (r: Self)
        ensures
            r.vars@ == Map::<Seq<char>, Seq<char>>::empty(),
    {
        MapEnv::new()
    }
}

impl EnvSource for MapEnv {
    fn collect_input_vars(&self) -> (r: StringMap)
        ensures
            r@ == collected(self.vars.pairs()),
    {
        let entries = self.vars.entries();
        collect_input_pairs(entries)
    }
}

/// Law: only variables with the `INPUT_` prefix yield inputs; every input
/// comes from such a variable, under its input name, and its value is that
/// of the last such variable in the list.
pub proof fn lemma_collected_inputs_come_from_prefixed_vars(
    vars: Seq<(Seq<char>, Seq<char>)>,
    name: Seq<char>,
)
    ensures
        collected(vars).contains_key(name) ==> exists|i: int|
            0 <= i < vars.len() && input_name(#[trigger] vars[i].0) == Some(name) && vars[i].1
                == collected(vars)[name] && forall|j: int|
                i < j < vars.len() ==> input_name(#[trigger] vars[j].0) != Some(name),
        (exists|i: int| 0 <= i < vars.len() && input_name(#[trigger] vars[i].0) == Some(name))
            ==> collected(vars).contains_key(name),
    decreases vars.len(),
{
    if vars.len() > 0 {
        let init = vars.drop_last();
        lemma_collected_inputs_come_from_prefixed_vars(init, name);
        let last = vars.last();
        if input_name(last.0) == Some(name) {
            assert(input_name(vars[vars.len() - 1].0) == Some(name));
        } else {
            if collected(vars).contains_key(name) {
                let i = choose|i: int|
                    0 <= i < init.len() && input_name(#[trigger] init[i].0) == Some(name)
                        && init[i].1 == collected(init)[name] && forall|j: int|
                        i < j < init.len() ==> input_name(#[trigger] init[j].0) != Some(name);
                assert(vars[i] == init[i]);
                assert forall|j: int| i < j < vars.len() implies input_name(
                    #[trigger] vars[j].0,
                ) != Some(name) by {
                    if j < init.len() {
                        assert(vars[j] == init[j]);
                    }
                }
            }
            if exists|i: int| 0 <= i < vars.len() && input_name(#[trigger] vars[i].0) == Some(name) {
                let i = choose|i: int|
                    0 <= i < vars.len() && input_name(#[trigger] vars[i].0) == Some(name);
                assert(i < init.len());
                assert(init[i] == vars[i]);
            }
        }
    }
}

/// No two variables yield the same input name unless they are the same
/// entry: keys that differ only in the case of letters after `INPUT_` do not
/// occur together.
pub open spec fn no_name_collisions(vars: Seq<(Seq<char>, Seq<char>)>) -> bool {
    forall|i: int, j: int|
        0 <= i < vars.len() && 0 <= j < vars.len() && input_name(#[trigger] vars[i].0) is Some
            && input_name(vars[i].0) == input_name(#[trigger] vars[j].0) ==> vars[i] == vars[j]
}

/// Law: without name collisions, the inputs do not depend on the order of
/// the variables: each input is the value of the one variable that yields
/// its name, and two lists holding the same variables yield the same inputs
/// (so the process environment, in whatever order it lists its variables,
/// yields what an in-memory map with the same variables yields).
pub proof fn lemma_collected_ignores_order(
    a: Seq<(Seq<char>, Seq<char>)>,
    b: Seq<(Seq<char>, Seq<char>)>,
)
    requires
        no_name_collisions(a),
        forall|e: (Seq<char>, Seq<char>)| a.contains(e) <==> b.contains(e),
    ensures
        no_name_collisions(b),
        collected(a) == collected(b),
        forall|i: int|
            0 <= i < a.len() && #[trigger] input_name(a[i].0) is Some ==> collected(a).contains_key(
                input_name(a[i].0).unwrap(),
            ) && collected(a)[input_name(a[i].0).unwrap()] == a[i].1,
{
    assert forall|i: int, j: int|
        0 <= i < b.len() && 0 <= j < b.len() && input_name(#[trigger] b[i].0) is Some
            && input_name(b[i].0) == input_name(#[trigger] b[j].0) implies b[i] == b[j] by {
        assert(b.contains(b[i]));
        assert(b.contains(b[j]));
        let x = choose|x: int| 0 <= x < a.len() && a[x] == b[i];
        let y = choose|y: int| 0 <= y < a.len() && a[y] == b[j];
    }
    assert forall|i: int|
        0 <= i < a.len() && #[trigger] input_name(a[i].0) is Some implies collected(
            a,
        ).contains_key(input_name(a[i].0).unwrap()) && collected(a)[input_name(a[i].0).unwrap()]
            == a[i].1 by {
        let n = input_name(a[i].0).unwrap();
        lemma_collected_inputs_come_from_prefixed_vars(a, n);
        let k = choose|k: int|
            0 <= k < a.len() && input_name(#[trigger] a[k].0) == Some(n) && a[k].1
                == collected(a)[n] && forall|j: int|
                k < j < a.len() ==> input_name(#[trigger] a[j].0) != Some(n);
        assert(a[k] == a[i]);
    }
    assert forall|n: Seq<char>| #[trigger] collected(a).contains_key(n) == collected(
        b,
    ).contains_key(n) && (collected(a).contains_key(n) ==> collected(a)[n] == collected(b)[n]) by {
        lemma_collected_inputs_come_from_prefixed_vars(a, n);
        lemma_collected_inputs_come_from_prefixed_vars(b, n);
        if collected(a).contains_key(n) {
            let k = choose|k: int|
                0 <= k < a.len() && input_name(#[trigger] a[k].0) == Some(n) && a[k].1
                    == collected(a)[n] && forall|j: int|
                    k < j < a.len() ==> input_name(#[trigger] a[j].0) != Some(n);
            assert(a.contains(a[k]));
            assert(b.contains(a[k]));
            let kb = choose|x: int| 0 <= x < b.len() && b[x] == a[k];
            assert(input_name(b[kb].0) == Some(n));
            let m = choose|m: int|
                0 <= m < b.len() && input_name(#[trigger] b[m].0) == Some(n) && b[m].1
                    == collected(b)[n] && forall|j: int|
                    m < j < b.len() ==> input_name(#[trigger] b[j].0) != Some(n);
            assert(b[m] == b[kb]);
        }
        if collected(b).contains_key(n) {
            let m = choose|m: int|
                0 <= m < b.len() && input_name(#[trigger] b[m].0) == Some(n) && b[m].1
                    == collected(b)[n] && forall|j: int|
                    m < j < b.len() ==> input_name(#[trigger] b[j].0) != Some(n);
            assert(b.contains(b[m]));
            assert(a.contains(b[m]));
            let ka = choose|x: int| 0 <= x < a.len() && a[x] == b[m];
            assert(input_name(a[ka].0) == Some(n));
        }
    }
    assert(collected(a) =~= collected(b));
}

/// The inputs as the fields of the JSON object they are deserialized from:
/// each name with its classified value, in ascending name order.
/// `finite_floats[i]` says whether the `i`-th value reads as a finite
/// floating-point number.
pub fn input_values(vars: &StringMap, finite_floats: &Vec<bool>) -> (r: Vec<(String, InputValue)>)
    requires
        finite_floats@.len() == vars.pairs().len(),
    ensures
        r@.len() == vars.pairs().len(),
        forall|i: int|
            0 <= i < r@.len() ==> (#[trigger] r@[i]).0@ == vars.pairs()[i].0 && describes(
                r@[i].1,
                vars.pairs()[i].1,
                scalar_kind(vars.pairs()[i].1, finite_floats@[i], json_text_is_valid(vars.pairs()[i].1)),
            ),
{
    let entries = vars.entries();
    let ghost pairs = vars.pairs();
    let mut out: Vec<(String, InputValue)> = Vec::new();
    let mut i: usize = 0;
    while i < entries.len()
        invariant
            i <= entries.len(),
            pairs == vars.pairs(),
            entries@.map_values(|e: (String, String)| entry_view(e)) == pairs,
            finite_floats@.len() == pairs.len(),
            out@.len() == i,
            forall|j: int|
                0 <= j < i ==> (#[trigger] out@[j]).0@ == pairs[j].0 && describes(
                    out@[j].1,
                    pairs[j].1,
                    scalar_kind(pairs[j].1, finite_floats@[j], json_text_is_valid(pairs[j].1)),
                ),
        decreases entries.len() - i,
    {
        let (name, raw) = &entries[i];
        assert(pairs[i as int] == (name@, raw@));
        let value = parse_scalar(raw.as_str(), finite_floats[i]);
        out.push((name.clone(), value));
        i = i + 1;
    }
    out
}

/// The error for inputs that do not deserialize: a fatal error whose
/// message names the failure and whose context is titled
/// `Action input parse error`.
pub fn input_parse_error(detail: &str) -> (r: ActionError)
    ensures
        r is Error,
        r.message_text() == "failed to parse INPUT_* env vars: "@ + detail@,
        r.context() matches Some(ctx) && ctx.title matches Some(t) && t@
            == "Action input parse error"@ && ctx.file is None && ctx.line is None && ctx.col is None
            && ctx.end_line is None && ctx.end_col is None,
{
    let mut message = String::from_str("failed to parse INPUT_* env vars: ");
    message.append(detail);
    let context = ErrorContext {
        title: Some(String::from_str("Action input parse error")),
        file: None,
        line: None,
        col: None,
        end_line: None,
        end_col: None,
    };
    ActionError::error(message.as_str()).with_context(context)
}

/// Law: the input name of `INPUT_<rest>` is `<rest>` ASCII-lower-cased:
/// it has the length of `<rest>`, holds no ASCII upper-case letter, every
/// upper-case letter of `<rest>` becomes the letter 32 code points higher,
/// and every other character is kept. A key without the prefix has no
/// input name.
pub proof fn lemma_input_name_lowercases(key: Seq<char>, rest: Seq<char>)
    ensures
        input_name(key) is Some <==> (key.len() >= 6 && key.take(6) == input_prefix()),
        ({
            let n = input_name(input_prefix() + rest).unwrap();
            &&& input_name(input_prefix() + rest) is Some
            &&& n.len() == rest.len()
            &&& forall|i: int| 0 <= i < n.len() ==> !('A' <= #[trigger] n[i] && n[i] <= 'Z')
            &&& forall|i: int|
                0 <= i < rest.len() && 'A' <= #[trigger] rest[i] && rest[i] <= 'Z' ==> n[i] as int
                    == rest[i] as int + 32
            &&& forall|i: int|
                0 <= i < rest.len() && !('A' <= #[trigger] rest[i] && rest[i] <= 'Z') ==> n[i]
                    == rest[i]
        }),
{
    let k = input_prefix() + rest;
    assert(k.take(6) =~= input_prefix());
    assert(k.skip(6) =~= rest);
    let n = input_name(k).unwrap();
    assert(n == lowercase(rest));
    assert forall|i: int| 0 <= i < n.len() implies !('A' <= #[trigger] n[i] && n[i] <= 'Z') by {
        assert(n[i] == ascii_lower(rest[i]));
        if 'A' <= rest[i] && rest[i] <= 'Z' {
            assert(n[i] as int == rest[i] as int + 32);
        }
    }
    assert forall|i: int|
        0 <= i < rest.len() && 'A' <= #[trigger] rest[i] && rest[i] <= 'Z' implies n[i] as int
            == rest[i] as int + 32 by {
        assert(n[i] == ascii_lower(rest[i]));
    }
    assert forall|i: int|
        0 <= i < rest.len() && !('A' <= #[trigger] rest[i] && rest[i] <= 'Z') implies n[i]
            == rest[i] by {
        assert(n[i] == ascii_lower(rest[i]));
    }
}

} // verus!
