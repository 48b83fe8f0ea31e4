//! Nested documents and the walk of dotted field paths through them.
use vstd::prelude::*;
use vstd::string::{StrSliceExecFns, StringExecFns};
use crate::crypto::{Action, CipherProvider, CustomCipher};

verus! {

/// A document: a mapping, a sequence, or a scalar.
pub enum Value {
    Null,
    Bool(bool),
    /// A number, kept as the text it was written with.
    Number(String),
    Str(String),
    List(Vec<Value>),
    /// Entries in insertion order. Keys are expected to be distinct; where a
    /// key repeats, a path through it goes through every entry with it.
    Object(Vec<(String, Value)>),
}

/// The mathematical model of a document.
pub enum Json {
    Null,
    Bool(bool),
    Number(Seq<char>),
    Str(Seq<char>),
    List(Seq<Json>),
    Object(Seq<(Seq<char>, Json)>),
}

impl Value {
    pub open spec fn model(&self) -> Json
        decreases self,
    {
        match self {
            Value::Null => Json::Null,
            Value::Bool(b) => Json::Bool(*b),
            Value::Number(t) => Json::Number(t@),
            Value::Str(s) => Json::Str(s@),
            Value::List(items) => Json::List(
                Seq::new(
                    items@.len(),
                    |i: int|
                        if 0 <= i < items@.len() {
                            items@[i].model()
                        } else {
                            Json::Null
                        },
                ),
            ),
            Value::Object(es) => Json::Object(
                Seq::new(
                    es@.len(),
                    |i: int|
                        if 0 <= i < es@.len() {
                            (es@[i].0@, es@[i].1.model())
                        } else {
                            (Seq::empty(), Json::Null)
                        },
                ),
            ),
        }
    }
}

/// The text that stands for a scalar before it is ciphered.
pub open spec fn scalar_text(j: Json) -> Seq<char> {
    match j {
        Json::Null => "None"@,
        Json::Bool(b) => if b { "True"@ } else { "False"@ },
        Json::Number(t) => t,
        Json::Str(s) => s,
        _ => Seq::empty(),
    }
}

/// `s` with each backslash and single quote preceded by a backslash.
pub open spec fn quote_escape(s: Seq<char>) -> Seq<char>
    decreases s.len(),
{
    if s.len() == 0 {
        Seq::empty()
    } else if s.last() == '\\' || s.last() == '\'' {
        quote_escape(s.drop_last()) + seq!['\\', s.last()]
    } else {
        quote_escape(s.drop_last()).push(s.last())
    }
}

/// The parts separated by ", ".
pub open spec fn join(parts: Seq<Seq<char>>) -> Seq<char>
    decreases parts.len(),
{
    if parts.len() == 0 {
        Seq::empty()
    } else if parts.len() == 1 {
        parts[0]
    } else {
        join(parts.drop_last()) + ", "@ + parts.last()
    }
}

/// Display text of a value: strings in single quotes, sequences in
/// brackets, mappings in braces as `'key': value`.
pub open spec fn repr_text(j: Json) -> Seq<char>
    decreases j,
{
    match j {
        Json::Str(s) => "'"@ + quote_escape(s) + "'"@,
        Json::List(items) => "["@ + join(repr_items(items)) + "]"@,
        Json::Object(es) => "{"@ + join(repr_entries(es)) + "}"@,
        _ => scalar_text(j),
    }
}

/// The texts of the elements of a sequence.
pub open spec fn repr_items(items: Seq<Json>) -> Seq<Seq<char>>
    decreases items,
{
    Seq::new(
        items.len(),
        |i: int|
            if 0 <= i < items.len() {
                repr_text(items[i])
            } else {
                Seq::empty()
            },
    )
}

/// The `'key': value` texts of the entries of a mapping.
pub open spec fn repr_entries(es: Seq<(Seq<char>, Json)>) -> Seq<Seq<char>>
    decreases es,
{
    Seq::new(
        es.len(),
        |i: int|
            if 0 <= i < es.len() {
                "'"@ + quote_escape(es[i].0) + "': "@ + repr_text(es[i].1)
            } else {
                Seq::empty()
            },
    )
}

/// The text a value is ciphered as: a scalar's own text, a container's
/// display text.
pub open spec fn stringify(j: Json) -> Seq<char> {
    match j {
        Json::List(_) => repr_text(j),
        Json::Object(_) => repr_text(j),
        _ => scalar_text(j),
    }
}

/// `k` is a value replaced by a ciphered text of `j`.
pub open spec fn cipher_scalar_ok<C: CustomCipher>(j: Json, k: Json, c: CipherProvider<C>, act: Action) -> bool {
    k matches Json::Str(t) && c.applies_to(act, stringify(j), t)
}

/// `k` is the value at the end of a path after ciphering: a sequence element
/// by element, anything else as a whole.
pub open spec fn cipher_leaf_ok<C: CustomCipher>(j: Json, k: Json, c: CipherProvider<C>, act: Action) -> bool {
    match j {
        Json::List(items) => k matches Json::List(out) && out.len() == items.len() && forall|i: int|
            0 <= i < items.len() ==> cipher_scalar_ok(#[trigger] items[i], out[i], c, act),
        _ => cipher_scalar_ok(j, k, c, act),
    }
}

/// `k` is `j` after one field path: through a mapping by the first segment,
/// through a sequence into every element with the same segments; a missing
/// key or a scalar on the way stops the walk without change.
pub open spec fn walk_ok<C: CustomCipher>(j: Json, k: Json, keys: Seq<Seq<char>>, c: CipherProvider<C>, act: Action) -> bool
    decreases j,
{
    if keys.len() == 0 {
        k == j
    } else {
        match j {
            Json::Object(es) => k matches Json::Object(out) && out.len() == es.len() && forall|i: int|
                0 <= i < es.len() ==> {
                    &&& (#[trigger] out[i]).0 == es[i].0
                    &&& if es[i].0 == keys[0] {
                        if keys.len() == 1 {
                            cipher_leaf_ok(es[i].1, out[i].1, c, act)
                        } else {
                            walk_ok(es[i].1, out[i].1, keys.drop_first(), c, act)
                        }
                    } else {
                        out[i].1 == es[i].1
                    }
                },
            Json::List(items) => k matches Json::List(out) && out.len() == items.len() && forall|i: int|
                0 <= i < items.len() ==> walk_ok(items[i], #[trigger] out[i], keys, c, act),
            _ => k == j,
        }
    }
}

/// `s` cut at every `.`.
pub open spec fn split_dots(s: Seq<char>) -> Seq<Seq<char>>
    decreases s.len(),
{
    if s.len() == 0 {
        seq![Seq::empty()]
    } else {
        let r = split_dots(s.drop_last());
        if s.last() == '.' {
            r.push(Seq::empty())
        } else {
            r.update(r.len() - 1, r.last().push(s.last()))
        }
    }
}

/// The segments of a dotted path; an empty path has none.
pub open spec fn path_segments(s: Seq<char>) -> Seq<Seq<char>> {
    if s.len() == 0 {
        Seq::empty()
    } else {
        split_dots(s)
    }
}

/// `k` is `j` after every path, applied in turn, each fully before the next.
pub open spec fn process_ok<C: CustomCipher>(j: Json, k: Json, paths: Seq<Seq<char>>, c: CipherProvider<C>, act: Action) -> bool {
    exists|ms: Seq<Json>|
        {
            &&& ms.len() == paths.len() + 1
            &&& ms[0] == j
            &&& ms.last() == k
            &&& forall|i: int|
                0 <= i < paths.len() ==> walk_ok(#[trigger] ms[i], ms[i + 1], path_segments(paths[i]), c, act)
        }
}

pub open spec fn string_views(v: Seq<String>) -> Seq<Seq<char>> {
    v.map_values(|s: String| s@)
}

proof fn lemma_split_dots_nonempty(s: Seq<char>)
    ensures
        split_dots(s).len() > 0,
    decreases s.len(),
{
    if s.len() > 0 {
        lemma_split_dots_nonempty(s.drop_last());
    }
}

/// Splits a dotted path into its segments; an empty path gives none.
pub fn split_path(path: &str) -> (r: Vec<String>)
    ensures
        string_views(r@) == path_segments(path@),
{
    let n = path.unicode_len();
    if n == 0 {
        let r: Vec<String> = Vec::new();
        assert(string_views(r@) =~= path_segments(path@));
        return r;
    }
    let mut parts: Vec<String> = Vec::new();
    let mut start: usize = 0;
    let mut i: usize = 0;
    assert(path@.subrange(0, 0) =~= Seq::<char>::empty());
    assert(string_views(parts@) =~= Seq::<Seq<char>>::empty());
    assert(split_dots(path@.subrange(0, 0)) =~= string_views(parts@).push(path@.subrange(0, 0)));
    while i < n
        invariant
            n == path@.len(),
            start <= i <= n,
            split_dots(path@.subrange(0, i as int)) == string_views(parts@).push(
                path@.subrange(start as int, i as int),
            ),
        decreases n - i,
    {
        let ch = path.get_char(i);
        let ghost pre = path@.subrange(0, i as int);
        let ghost cur = path@.subrange(0, i as int + 1);
        assert(cur.drop_last() =~= pre);
        assert(cur.last() == ch);
        proof {
            lemma_split_dots_nonempty(pre);
        }
        if ch == '.' {
            let seg = String::from_str(path.substring_char(start, i));
            let ghost prev = parts@;
            parts.push(seg);
            start = i + 1;
            assert(string_views(parts@) =~= string_views(prev).push(seg@));
            assert(split_dots(cur) == split_dots(pre).push(Seq::empty()));
            assert(path@.subrange(start as int, i as int + 1) =~= Seq::<char>::empty());
        } else {
            assert(path@.subrange(start as int, i as int + 1) =~= path@.subrange(start as int, i as int).push(ch));
            assert(split_dots(cur) =~= string_views(parts@).push(path@.subrange(start as int, i as int + 1)));
        }
        i = i + 1;
        assert(split_dots(path@.subrange(0, i as int)) =~= string_views(parts@).push(path@.subrange(start as int, i as int)));
    }
    let last = String::from_str(path.substring_char(start, n));
    let ghost before = parts@;
    parts.push(last);
    assert(path@.subrange(0, n as int) =~= path@);
    assert(string_views(parts@) =~= string_views(before).push(last@));
    parts
}

fn quote_escape_into(s: &str, out: &mut String)
    ensures
        final(out)@ == old(out)@ + quote_escape(s@),
{
    let n = s.unicode_len();
    let mut i: usize = 0;
    proof {
        reveal_strlit("\\");
    }
    assert(s@.subrange(0, 0) =~= Seq::<char>::empty());
    assert(out@ =~= old(out)@ + quote_escape(s@.subrange(0, 0)));
    while i < n
        invariant
            n == s@.len(),
            i <= n,
            out@ == old(out)@ + quote_escape(s@.subrange(0, i as int)),
        decreases n - i,
    {
        let ch = s.get_char(i);
        let ghost pre = out@;
        let ghost cur = s@.subrange(0, i as int + 1);
        assert(cur.drop_last() =~= s@.subrange(0, i as int));
        assert(cur.last() == ch);
        proof {
            reveal_strlit("\\");
        }
        assert("\\"@ =~= seq!['\\']);
        if ch == '\\' || ch == '\'' {
            out.append("\\");
            out.append(s.substring_char(i, i + 1));
            assert(s@.subrange(i as int, i as int + 1) =~= seq![ch]);
            assert(quote_escape(cur) == quote_escape(s@.subrange(0, i as int)) + seq!['\\', ch]);
            assert(out@ =~= old(out)@ + quote_escape(cur));
        } else {
            out.append(s.substring_char(i, i + 1));
            assert(s@.subrange(i as int, i as int + 1) =~= seq![ch]);
            assert(quote_escape(cur) == quote_escape(s@.subrange(0, i as int)).push(ch));
            assert(out@ =~= old(out)@ + quote_escape(cur));
        }
        i = i + 1;
    }
    assert(s@.subrange(0, n as int) =~= s@);
}

/// Appends the display text of a value.
fn repr_into(v: &Value, out: &mut String)
    ensures
        final(out)@ == old(out)@ + repr_text(v.model()),
    decreases v,
{
    match v {
        Value::Null => out.append("None"),
        Value::Bool(b) => if *b {
            out.append("True")
        } else {
            out.append("False")
        },
        Value::Number(t) => out.append(t.as_str()),
        Value::Str(s) => {
            out.append("'");
            quote_escape_into(s.as_str(), out);
            out.append("'");
            assert(out@ =~= old(out)@ + repr_text(v.model()));
        },
        Value::List(items) => {
            let ghost parts = repr_items(v.model()->List_0);
            assert forall|j: int| 0 <= j < items@.len() implies #[trigger] parts[j] == repr_text(items@[j].model()) by {
                assert(v.model()->List_0[j] == items@[j].model());
            }
            assert forall|j: int| 0 <= j < items@.len() implies decreases_to!(*v => items@[j]) by {
                assert(decreases_to!(items => items@));
                assert(decreases_to!(items@ => items@[j]));
            }
            out.append("[");
            let ghost start = out@;
            let mut i: usize = 0;
            assert(parts.subrange(0, 0) =~= Seq::<Seq<char>>::empty());
            assert(out@ =~= start + join(parts.subrange(0, 0)));
            while i < items.len()
                invariant
                    i <= items@.len(),
                    parts == repr_items(v.model()->List_0),
                    parts.len() == items@.len(),
                    forall|j: int| 0 <= j < items@.len() ==> #[trigger] parts[j] == repr_text(items@[j].model()),
                    out@ == start + join(parts.subrange(0, i as int)),
                    forall|j: int| 0 <= j < items@.len() ==> decreases_to!(*v => #[trigger] items@[j]),
                    start == old(out)@ + "["@,
                    *v == Value::List(*items),
                decreases items@.len() - i,
            {
                let ghost before = out@;
                if i > 0 {
                    out.append(", ");
                }
                repr_into(&items[i], out);
                let ghost sub = parts.subrange(0, i as int + 1);
                assert(sub.drop_last() =~= parts.subrange(0, i as int));
                assert(sub.last() == parts[i as int]);
                assert(out@ =~= start + join(sub));
                i = i + 1;
            }
            assert(parts.subrange(0, parts.len() as int) =~= parts);
            out.append("]");
            assert(out@ =~= old(out)@ + repr_text(v.model()));
        },
        Value::Object(es) => {
            let ghost parts = repr_entries(v.model()->Object_0);
            assert forall|j: int| 0 <= j < es@.len() implies #[trigger] parts[j] == "'"@ + quote_escape(es@[j].0@) + "': "@
                + repr_text(es@[j].1.model()) by {
                assert(v.model()->Object_0[j] == (es@[j].0@, es@[j].1.model()));
            }
            assert forall|j: int| 0 <= j < es@.len() implies decreases_to!(*v => es@[j].1) by {
                assert(decreases_to!(es => es@));
                assert(decreases_to!(es@ => es@[j]));
                assert(decreases_to!(es@[j] => es@[j].1));
            }
            out.append("{");
            let ghost start = out@;
            let mut i: usize = 0;
            assert(parts.subrange(0, 0) =~= Seq::<Seq<char>>::empty());
            assert(out@ =~= start + join(parts.subrange(0, 0)));
            while i < es.len()
                invariant
                    i <= es@.len(),
                    parts == repr_entries(v.model()->Object_0),
                    parts.len() == es@.len(),
                    forall|j: int|
                        0 <= j < es@.len() ==> #[trigger] parts[j] == "'"@ + quote_escape(es@[j].0@) + "': "@
                            + repr_text(es@[j].1.model()),
                    out@ == start + join(parts.subrange(0, i as int)),
                    forall|j: int| 0 <= j < es@.len() ==> decreases_to!(*v => #[trigger] es@[j].1),
                    start == old(out)@ + "{"@,
                    *v == Value::Object(*es),
                decreases es@.len() - i,
            {
                let ghost before = out@;
                if i > 0 {
                    out.append(", ");
                }
                let ghost mid = out@;
                out.append("'");
                quote_escape_into(es[i].0.as_str(), out);
                out.append("': ");
                repr_into(&es[i].1, out);
                assert(out@ =~= mid + parts[i as int]);
                let ghost sub = parts.subrange(0, i as int + 1);
                assert(sub.drop_last() =~= parts.subrange(0, i as int));
                assert(sub.last() == parts[i as int]);
                assert(out@ =~= start + join(sub));
                i = i + 1;
            }
            assert(parts.subrange(0, parts.len() as int) =~= parts);
            out.append("}");
            assert(out@ =~= old(out)@ + repr_text(v.model()));
        },
    }
}

fn cipher_scalar_value<C: CustomCipher>(v: Value, c: &CipherProvider<C>, act: Action) -> (r: Value)
    ensures
        cipher_scalar_ok(v.model(), r.model(), *c, act),
{
    let t: String = match &v {
        Value::Null => String::from_str("None"),
        Value::Bool(b) => if *b {
            String::from_str("True")
        } else {
            String::from_str("False")
        },
        Value::Number(t) => t.clone(),
        Value::Str(s) => s.clone(),
        _ => {
            let mut t = String::new();
            repr_into(&v, &mut t);
            assert(t@ =~= repr_text(v.model()));
            t
        },
    };
    Value::Str(c.apply(act, t.as_str()))
}

fn cipher_leaf_value<C: CustomCipher>(v: Value, c: &CipherProvider<C>, act: Action) -> (r: Value)
    ensures
        cipher_leaf_ok(v.model(), r.model(), *c, act),
{
    let ghost vm = v.model();
    match v {
        Value::List(items) => {
            let ghost orig = items@;
            let ghost ov = items;
            let mut items = items;
            let mut out: Vec<Value> = Vec::new();
            while items.len() > 0
                invariant
                    vm == Value::List(ov).model(),
                    orig == ov@,
                    out@.len() + items@.len() == orig.len(),
                    items@ == orig.subrange(out@.len() as int, orig.len() as int),
                    forall|j: int|
                        0 <= j < out@.len() ==> cipher_scalar_ok(orig[j].model(), #[trigger] out@[j].model(), *c, act),
                decreases items@.len(),
            {
                let ghost k = out@.len() as int;
                let x = items.remove(0);
                assert(x == orig[k]);
                let y = cipher_scalar_value(x, c, act);
                out.push(y);
                assert(items@ =~= orig.subrange(out@.len() as int, orig.len() as int));
            }
            let r = Value::List(out);
            proof {
                let ra = r.model()->List_0;
                let ea = vm->List_0;
                assert forall|j: int| 0 <= j < ea.len() implies cipher_scalar_ok(#[trigger] ea[j], ra[j], *c, act) by {
                    assert(ra[j] == out@[j].model());
                    assert(ea[j] == orig[j].model());
                }
            }
            r
        },
        other => cipher_scalar_value(other, c, act),
    }
}

/// Applies the segments `keys[k..]` of one path to a document.
fn walk_value<C: CustomCipher>(v: Value, keys: &Vec<String>, k: usize, c: &CipherProvider<C>, act: Action) -> (r: Value)
    requires
        k <= keys@.len(),
    ensures
        walk_ok(v.model(), r.model(), string_views(keys@).subrange(k as int, keys@.len() as int), *c, act),
    decreases v,
{
    let ghost ks = string_views(keys@).subrange(k as int, keys@.len() as int);
    let ghost vm = v.model();
    if k == keys.len() {
        return v;
    }
    assert(ks[0] == keys@[k as int]@);
    assert(ks.drop_first() =~= string_views(keys@).subrange(k + 1, keys@.len() as int));
    match v {
        Value::Object(es) => {
            let ghost gv = Value::Object(es);
            let ghost orig = es@;
            let ghost ov = es;
            let mut es = es;
            let mut out: Vec<(String, Value)> = Vec::new();
            while es.len() > 0
                invariant
                    k < keys@.len(),
                    ks == string_views(keys@).subrange(k as int, keys@.len() as int),
                    ks.len() > 0,
                    ks[0] == keys@[k as int]@,
                    vm == gv.model(),
                    gv == Value::Object(ov),
                    gv == v,
                    orig == ov@,
                    out@.len() + es@.len() == orig.len(),
                    es@ == orig.subrange(out@.len() as int, orig.len() as int),
                    forall|j: int|
                        0 <= j < out@.len() ==> {
                            &&& (#[trigger] out@[j]).0 == orig[j].0
                            &&& if orig[j].0@ == ks[0] {
                                if ks.len() == 1 {
                                    cipher_leaf_ok(orig[j].1.model(), out@[j].1.model(), *c, act)
                                } else {
                                    walk_ok(orig[j].1.model(), out@[j].1.model(), ks.drop_first(), *c, act)
                                }
                            } else {
                                out@[j].1.model() == orig[j].1.model()
                            }
                        },
                decreases es@.len(),
            {
                let ghost j = out@.len() as int;
                let (name, val) = es.remove(0);
                assert((name, val) == orig[j]);
                assert(ks.len() == keys@.len() - k);
                assert(ks.drop_first() =~= string_views(keys@).subrange(k + 1, keys@.len() as int));
                let nv = if name == keys[k] {
                    if k == keys.len() - 1 {
                        cipher_leaf_value(val, c, act)
                    } else {
                        proof {
                            vstd::std_specs::vec::axiom_vec_index_decreases(ov, j);
                        }
                        assert(decreases_to!(gv => ov));
                        assert(decreases_to!(ov => ov@));
                        assert(decreases_to!(ov@ => ov@[j]));
                        assert(decreases_to!(ov@[j] => ov@[j].1));
                        assert(decreases_to!(gv => val));
                        walk_value(val, keys, k + 1, c, act)
                    }
                } else {
                    val
                };
                out.push((name, nv));
                assert(es@ =~= orig.subrange(out@.len() as int, orig.len() as int));
            }
            let r = Value::Object(out);
            proof {
                let ra = r.model()->Object_0;
                let ea = vm->Object_0;
                assert forall|j: int| 0 <= j < ea.len() implies #[trigger] ra[j].0 == ea[j].0 && (if ea[j].0 == ks[0] {
                    if ks.len() == 1 {
                        cipher_leaf_ok(ea[j].1, ra[j].1, *c, act)
                    } else {
                        walk_ok(ea[j].1, ra[j].1, ks.drop_first(), *c, act)
                    }
                } else {
                    ra[j].1 == ea[j].1
                }) by {
                    assert(ra[j] == (out@[j].0@, out@[j].1.model()));
                    assert(ea[j] == (orig[j].0@, orig[j].1.model()));
                }
            }
            r
        },
        Value::List(items) => {
            let ghost gv = Value::List(items);
            let ghost orig = items@;
            let ghost ov = items;
            let mut items = items;
            let mut out: Vec<Value> = Vec::new();
            while items.len() > 0
                invariant
                    k < keys@.len(),
                    ks == string_views(keys@).subrange(k as int, keys@.len() as int),
                    vm == gv.model(),
                    gv == Value::List(ov),
                    gv == v,
                    orig == ov@,
                    out@.len() + items@.len() == orig.len(),
                    items@ == orig.subrange(out@.len() as int, orig.len() as int),
                    forall|j: int|
                        0 <= j < out@.len() ==> walk_ok(orig[j].model(), #[trigger] out@[j].model(), ks, *c, act),
                decreases items@.len(),
            {
                let ghost j = out@.len() as int;
                let x = items.remove(0);
                assert(x == orig[j]);
                proof {
                    vstd::std_specs::vec::axiom_vec_index_decreases(ov, j);
                }
                assert(decreases_to!(gv => ov));
                assert(decreases_to!(ov => ov@));
                assert(decreases_to!(ov@ => ov@[j]));
                assert(decreases_to!(gv => x));
                let y = walk_value(x, keys, k, c, act);
                out.push(y);
                assert(items@ =~= orig.subrange(out@.len() as int, orig.len() as int));
            }
            let r = Value::List(out);
            proof {
                let ra = r.model()->List_0;
                let ea = vm->List_0;
                assert forall|j: int| 0 <= j < ea.len() implies walk_ok(ea[j], #[trigger] ra[j], ks, *c, act) by {
                    assert(ra[j] == out@[j].model());
                    assert(ea[j] == orig[j].model());
                }
            }
            r
        },
        other => other,
    }
}

/// Applies every path of `fields`, in order, to a document.
pub fn process_paths<C: CustomCipher>(doc: Value, fields: &Vec<String>, c: &CipherProvider<C>, act: Action) -> (r: Value)
    ensures
        process_ok(doc.model(), r.model(), string_views(fields@), *c, act),
{
    let ghost paths = string_views(fields@);
    let ghost mut ms: Seq<Json> = seq![doc.model()];
    let mut cur = doc;
    let mut i: usize = 0;
    while i < fields.len()
        invariant
            i <= fields@.len(),
            paths == string_views(fields@),
            ms.len() == i + 1,
            ms[0] == doc.model(),
            ms.last() == cur.model(),
            forall|j: int| 0 <= j < i ==> walk_ok(#[trigger] ms[j], ms[j + 1], path_segments(paths[j]), *c, act),
        decreases fields@.len() - i,
    {
        let keys = split_path(fields[i].as_str());
        assert(keys@.len() == string_views(keys@).len());
        assert(string_views(keys@).subrange(0, keys@.len() as int) =~= string_views(keys@));
        let ghost before = cur.model();
        cur = walk_value(cur, &keys, 0, c, act);
        proof {
            let old_ms = ms;
            ms = ms.push(cur.model());
            assert forall|j: int| 0 <= j < i + 1 implies walk_ok(#[trigger] ms[j], ms[j + 1], path_segments(paths[j]), *c, act) by {
                if j < i {
                    assert(ms[j] == old_ms[j] && ms[j + 1] == old_ms[j + 1]);
                } else {
                    assert(ms[j] == before);
                }
            }
        }
        i = i + 1;
    }
    assert(process_ok(doc.model(), cur.model(), paths, *c, act));
    cur
}

} // verus!
