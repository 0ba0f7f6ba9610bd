//! Reading a configuration document: the number of samples to draw, the
//! population, and each participant's two lists.
//!
//! The document is a table whose `config` entry is a table holding the integer
//! `solutions`; every other entry is a participant, a table holding the arrays
//! of names `preferred` and `unpreferred`.

use crate::constraints::{lists, Constraints};
use vstd::prelude::*;
use vstd::string::StringExecFns;

verus! {

/// A value of a configuration document, as far as the reading needs to tell
/// values apart.
pub enum ConfigValue {
    Integer(i64),
    Text(String),
    Array(Vec<ConfigValue>),
    Table(Vec<(String, ConfigValue)>),
    /// Any other kind of value (a float, a boolean, a date).
    Other,
}

/// What a configuration document holds.
pub struct Config {
    pub num_solutions: i64,
    pub people: Vec<String>,
    pub constraints: Constraints,
}

/// Entry `i` is the first of `t` under `key`.
pub open spec fn first_under(t: Seq<(String, ConfigValue)>, key: Seq<char>, i: int) -> bool {
    &&& 0 <= i < t.len()
    &&& t[i].0@ == key
    &&& forall|j: int| 0 <= j < i ==> #[trigger] t[j].0@ != key
}

/// The value of the first entry of `t` under `key`, if any.
pub open spec fn field(t: Seq<(String, ConfigValue)>, key: Seq<char>) -> Option<ConfigValue> {
    if exists|i: int| first_under(t, key, i) {
        Some(t[choose|i: int| first_under(t, key, i)].1)
    } else {
        None
    }
}

/// The texts of `v`, when it is an array of texts only.
pub open spec fn text_list(v: ConfigValue) -> Option<Seq<Seq<char>>> {
    match v {
        ConfigValue::Array(items) => if forall|k: int|
            0 <= k < items@.len() ==> #[trigger] items@[k] is Text {
            Some(Seq::new(items@.len(), |k: int| items@[k]->Text_0@))
        } else {
            None
        },
        _ => None,
    }
}

/// The list of `v` under `key`, when `v` is a table holding such a list.
pub open spec fn list_under(v: ConfigValue, key: Seq<char>) -> Option<Seq<Seq<char>>> {
    match v {
        ConfigValue::Table(t) => match field(t@, key) {
            Some(l) => text_list(l),
            None => None,
        },
        _ => None,
    }
}

/// The preferred names of a participant's entry.
pub open spec fn preferred_of(v: ConfigValue) -> Option<Seq<Seq<char>>> {
    list_under(v, "preferred"@)
}

/// The unpreferred names of a participant's entry.
pub open spec fn unpreferred_of(v: ConfigValue) -> Option<Seq<Seq<char>>> {
    list_under(v, "unpreferred"@)
}

/// The sample count of a document.
pub open spec fn solutions_of(doc: Seq<(String, ConfigValue)>) -> Option<i64> {
    match field(doc, "config"@) {
        Some(ConfigValue::Table(t)) => match field(t@, "solutions"@) {
            Some(ConfigValue::Integer(n)) => Some(n),
            _ => None,
        },
        _ => None,
    }
}

/// The names of the participants, in document order.
pub open spec fn participants(doc: Seq<(String, ConfigValue)>) -> Seq<Seq<char>>
    decreases doc.len(),
{
    if doc.len() == 0 {
        Seq::empty()
    } else if doc.last().0@ == "config"@ {
        participants(doc.drop_last())
    } else {
        participants(doc.drop_last()).push(doc.last().0@)
    }
}

/// No two entries of the document share a key.
pub open spec fn keys_distinct(doc: Seq<(String, ConfigValue)>) -> bool {
    forall|i: int, j: int|
        0 <= i < doc.len() && 0 <= j < doc.len() && i != j ==> #[trigger] doc[i].0@
            != #[trigger] doc[j].0@
}

/// The document has a sample count, and every participant entry both lists.
pub open spec fn well_formed(doc: Seq<(String, ConfigValue)>) -> bool {
    &&& solutions_of(doc) is Some
    &&& forall|i: int|
        0 <= i < doc.len() && #[trigger] doc[i].0@ != "config"@ ==> preferred_of(doc[i].1) is Some
            && unpreferred_of(doc[i].1) is Some
}

/// The value of the first entry of `t` under `key`.
pub fn field_exec<'a>(t: &'a Vec<(String, ConfigValue)>, key: &String) -> (r: Option<&'a ConfigValue>)
    ensures
        r is None <==> field(t@, key@) is None,
        r matches Some(v) ==> field(t@, key@) == Some(*v),
{
    let mut i: usize = 0;
    while i < t.len()
        invariant
            i <= t@.len(),
            forall|j: int| 0 <= j < i ==> #[trigger] t@[j].0@ != key@,
        decreases t@.len() - i,
    {
        if t[i].0 == *key {
            assert(first_under(t@, key@, i as int));
            proof {
                let c = choose|c: int| first_under(t@, key@, c);
                if c < i {
                    assert(t@[c].0@ != key@);
                }
                if c > i {
                    assert(t@[i as int].0@ != key@);
                }
            }
            return Some(&t[i].1);
        }
        i = i + 1;
    }
    assert(!exists|c: int| first_under(t@, key@, c));
    None
}

/// The texts of `v`, when it is an array of texts only.
pub fn text_list_exec(v: &ConfigValue) -> (r: Option<Vec<String>>)
    ensures
        r is None <==> text_list(*v) is None,
        r matches Some(l) ==> text_list(*v) == Some(l@.map_values(|s: String| s@)),
{
    let items = match v {
        ConfigValue::Array(items) => items,
        _ => {
            return None;
        },
    };
    let mut out: Vec<String> = Vec::new();
    let mut k: usize = 0;
    while k < items.len()
        invariant
            k <= items@.len(),
            *v is Array,
            v->Array_0 == *items,
            out@.len() == k,
            forall|t: int| 0 <= t < k ==> #[trigger] items@[t] is Text && out@[t]@ == items@[t]->Text_0@,
        decreases items@.len() - k,
    {
        match &items[k] {
            ConfigValue::Text(s) => {
                out.push(s.clone());
            },
            _ => {
                assert(!(items@[k as int] is Text));
                return None;
            },
        }
        k = k + 1;
    }
    assert(out@.map_values(|s: String| s@) =~= Seq::new(items@.len(), |t: int| items@[t]->Text_0@));
    Some(out)
}

/// The list of the table `v` under `key`, when `v` is a table holding a list
/// of texts there.
fn list_under_exec(v: &ConfigValue, key: &String) -> (r: Option<Vec<String>>)
    ensures
        r is None <==> list_under(*v, key@) is None,
        r matches Some(l) ==> list_under(*v, key@) == Some(l@.map_values(|s: String| s@)),
{
    match v {
        ConfigValue::Table(t) => match field_exec(t, key) {
            Some(l) => text_list_exec(l),
            None => None,
        },
        _ => None,
    }
}

/// Reads a configuration document. `None` when the document lacks the sample
/// count or a participant entry lacks one of its lists; otherwise the count,
/// the participants in document order, and a mapping that gives each
/// participant exactly the lists of their entry.
pub fn read_config(doc: &Vec<(String, ConfigValue)>) -> (r: Option<Config>)
    requires
        keys_distinct(doc@),
    ensures
        r is Some <==> well_formed(doc@),
        r matches Some(c) ==> {
            &&& solutions_of(doc@) == Some(c.num_solutions)
            &&& c.people@.map_values(|s: String| s@) == participants(doc@)
            &&& c.constraints.wf()
            &&& forall|a: Seq<char>|
                c.constraints.has_entry(a) <==> exists|j: int|
                    0 <= j < doc@.len() && #[trigger] doc@[j].0@ == a && a != "config"@
            &&& forall|j: int, b: Seq<char>|
                0 <= j < doc@.len() && doc@[j].0@ != "config"@ ==> (#[trigger] c.constraints.prefers(
                    doc@[j].0@,
                    b,
                ) <==> preferred_of(doc@[j].1)->Some_0.contains(b))
            &&& forall|j: int, b: Seq<char>|
                0 <= j < doc@.len() && doc@[j].0@ != "config"@ ==> (#[trigger] c.constraints.rejects(
                    doc@[j].0@,
                    b,
                ) <==> unpreferred_of(doc@[j].1)->Some_0.contains(b))
        },
{
    let config_key = String::from_str("config");
    let solutions_key = String::from_str("solutions");
    let preferred_key = String::from_str("preferred");
    let unpreferred_key = String::from_str("unpreferred");
    let num_solutions = match field_exec(doc, &config_key) {
        Some(ConfigValue::Table(t)) => match field_exec(t, &solutions_key) {
            Some(ConfigValue::Integer(n)) => *n,
            _ => {
                return None;
            },
        },
        _ => {
            return None;
        },
    };
    let mut people: Vec<String> = Vec::new();
    let mut constraints = Constraints::new();
    let mut i: usize = 0;
    while i < doc.len()
        invariant
            i <= doc@.len(),
            keys_distinct(doc@),
            config_key@ == "config"@,
            preferred_key@ == "preferred"@,
            unpreferred_key@ == "unpreferred"@,
            constraints.wf(),
            people@.map_values(|s: String| s@) == participants(doc@.subrange(0, i as int)),
            forall|j: int|
                0 <= j < i && #[trigger] doc@[j].0@ != "config"@ ==> preferred_of(doc@[j].1) is Some
                    && unpreferred_of(doc@[j].1) is Some,
            forall|a: Seq<char>|
                constraints.has_entry(a) <==> exists|j: int|
                    0 <= j < i && #[trigger] doc@[j].0@ == a && a != "config"@,
            forall|j: int, b: Seq<char>|
                0 <= j < i && doc@[j].0@ != "config"@ ==> (#[trigger] constraints.prefers(
                    doc@[j].0@,
                    b,
                ) <==> preferred_of(doc@[j].1)->Some_0.contains(b)),
            forall|j: int, b: Seq<char>|
                0 <= j < i && doc@[j].0@ != "config"@ ==> (#[trigger] constraints.rejects(
                    doc@[j].0@,
                    b,
                ) <==> unpreferred_of(doc@[j].1)->Some_0.contains(b)),
        decreases doc@.len() - i,
    {
        let ghost before = doc@.subrange(0, i as int);
        assert(doc@.subrange(0, i + 1).drop_last() =~= before);
        if doc[i].0 == config_key {
            i = i + 1;
        } else {
            let preferred = match list_under_exec(&doc[i].1, &preferred_key) {
                Some(l) => l,
                None => {
                    assert(!(preferred_of(doc@[i as int].1) is Some));
                    return None;
                },
            };
            let unpreferred = match list_under_exec(&doc[i].1, &unpreferred_key) {
                Some(l) => l,
                None => {
                    assert(!(unpreferred_of(doc@[i as int].1) is Some));
                    return None;
                },
            };
            let ghost key = doc@[i as int].0@;
            let ghost old_cs = constraints;
            let ghost pv = preferred@;
            let ghost uv = unpreferred@;
            people.push(doc[i].0.clone());
            constraints.insert(doc[i].0.clone(), preferred, unpreferred);
            proof {
                assert(people@.map_values(|s: String| s@) =~= participants(before).push(key));
                assert forall|b: Seq<char>|
                    lists(pv, b) <==> pv.map_values(|s: String| s@).contains(b) by {
                    if lists(pv, b) {
                        let t = choose|t: int| 0 <= t < pv.len() && #[trigger] pv[t]@ == b;
                        assert(pv.map_values(|s: String| s@)[t] == b);
                    }
                }
                assert forall|b: Seq<char>|
                    lists(uv, b) <==> uv.map_values(|s: String| s@).contains(b) by {
                    if lists(uv, b) {
                        let t = choose|t: int| 0 <= t < uv.len() && #[trigger] uv[t]@ == b;
                        assert(uv.map_values(|s: String| s@)[t] == b);
                    }
                }
                assert forall|j: int| 0 <= j < i implies #[trigger] doc@[j].0@ != key by {
                    assert(doc@[j].0@ != doc@[i as int].0@);
                }
                assert(preferred_of(doc@[i as int].1) == Some(pv.map_values(|s: String| s@)));
                assert(unpreferred_of(doc@[i as int].1) == Some(uv.map_values(|s: String| s@)));
                assert forall|j: int, b: Seq<char>|
                    0 <= j < i + 1 && doc@[j].0@ != "config"@ implies (
                    #[trigger] constraints.prefers(doc@[j].0@, b)
                        <==> preferred_of(doc@[j].1)->Some_0.contains(b)) by {
                    if j < i {
                        assert(old_cs.prefers(doc@[j].0@, b) <==> preferred_of(
                            doc@[j].1,
                        )->Some_0.contains(b));
                    } else {
                        assert(constraints.prefers(key, b) == lists(pv, b));
                    }
                }
                assert forall|j: int, b: Seq<char>|
                    0 <= j < i + 1 && doc@[j].0@ != "config"@ implies (
                    #[trigger] constraints.rejects(doc@[j].0@, b)
                        <==> unpreferred_of(doc@[j].1)->Some_0.contains(b)) by {
                    if j < i {
                        assert(old_cs.rejects(doc@[j].0@, b) <==> unpreferred_of(
                            doc@[j].1,
                        )->Some_0.contains(b));
                    } else {
                        assert(constraints.rejects(key, b) == lists(uv, b));
                    }
                }
                assert forall|a: Seq<char>|
                    constraints.has_entry(a) <==> exists|j: int|
                        0 <= j < i + 1 && #[trigger] doc@[j].0@ == a && a != "config"@ by {
                    if a == key {
                        assert(doc@[i as int].0@ == a);
                    }
                }
            }
            i = i + 1;
        }
    }
    assert(doc@.subrange(0, i as int) =~= doc@);
    Some(Config { num_solutions, people, constraints })
}

} // verus!
