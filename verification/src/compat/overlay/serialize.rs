//! Writing the overlay manifest: top-level tables in Cargo's order, each
//! serialized by `toml`, then the byte shape of [`post_process_output`].
use vstd::prelude::*;
use crate::compat::overlay::text::{canonical_key_order, canonical_keys, post_process, post_process_output};
use crate::error::Error;
use crate::sort::{stable_sort, stable_sorted};
use crate::text::{push_char, push_str, push_string, str_eq};
use crate::toml_doc::{
    kind_text, lemma_table_view, lemma_tindex, matches_tree, tbl_index, tget, tindex, toml_segment,
    toml_single_key_text, tview, value_kind_name, value_of_doc, Toml, TomlV,
};
use crate::toml_model::{TomlNode, TomlSeg};

verus! {

/// The canonical keys, from position `i` on, that the table holds.
pub open spec fn canonical_present(top: Seq<(Seq<char>, TomlV)>, i: int) -> Seq<Seq<char>>
    decreases 15 - i,
{
    if i < 0 || i >= 15 {
        Seq::empty()
    } else if tindex(top, canonical_keys()[i], 0) is Some {
        seq![canonical_keys()[i]] + canonical_present(top, i + 1)
    } else {
        canonical_present(top, i + 1)
    }
}

/// The keys outside the canonical list, in table order.
pub open spec fn leftover_keys(es: Seq<(String, Toml)>) -> Seq<String>
    decreases es.len(),
{
    if es.len() == 0 {
        Seq::empty()
    } else if canonical_keys().contains(es.last().0@) {
        leftover_keys(es.drop_last())
    } else {
        leftover_keys(es.drop_last()).push(es.last().0)
    }
}

/// The order in which the top-level keys are written: the canonical keys
/// present, in Cargo's order, then the others sorted.
pub open spec fn serialization_order(es: Seq<(String, Toml)>) -> Seq<Seq<char>> {
    canonical_present(tview(es), 0) + stable_sorted(leftover_keys(es)).map_values(|s: String| s@)
}

/// Segments joined with `\n`.
pub open spec fn join_nl(segs: Seq<Seq<char>>) -> Seq<char>
    decreases segs.len(),
{
    if segs.len() == 0 {
        Seq::empty()
    } else if segs.len() == 1 {
        segs[0]
    } else {
        join_nl(segs.drop_last()) + seq!['\n'] + segs.last()
    }
}

/// `seg` is what `toml` writes for `key` with the table's value under it.
pub open spec fn segment_of(top: Seq<(Seq<char>, TomlV)>, key: Seq<char>, seg: Result<Seq<char>, Seq<char>>) -> bool {
    exists|t: Map<Seq<TomlSeg>, TomlNode>|
        matches_tree(tget(top, key)->Some_0, t) && #[trigger] toml_segment(key, t) == seg
}

/// `toml` writes `key` with the table's value under it without error.
pub open spec fn segment_writes(top: Seq<(Seq<char>, TomlV)>, key: Seq<char>) -> bool {
    exists|s: Seq<char>| #[trigger] segment_of(top, key, Ok(s))
}

pub open spec fn shape_error_text(kind: Seq<char>) -> Seq<char> {
    "overlay serializer expected a TOML document (table) at the top level, got `"@ + kind + "`"@
}

pub open spec fn segment_error_text(key: Seq<char>, m: Seq<char>) -> Seq<char> {
    "overlay serializer failed for `"@ + key + "`: "@ + m
}

pub open spec fn is_overlay_err<T>(r: Result<T, Error>, m: Seq<char>) -> bool {
    r matches Err(Error::TomlParse { path, message }) && path@ == "<overlay>"@ && message@ == m
}

proof fn lemma_canonical_present_found(tv: Seq<(Seq<char>, TomlV)>, i: int)
    ensures
        forall|k: int|
            0 <= k < canonical_present(tv, i).len() ==> tindex(tv, #[trigger] canonical_present(tv, i)[k], 0) is Some,
    decreases 15 - i,
{
    if 0 <= i < 15 {
        lemma_canonical_present_found(tv, i + 1);
        let rest = canonical_present(tv, i + 1);
        if tindex(tv, canonical_keys()[i], 0) is Some {
            let c = canonical_present(tv, i);
            assert forall|k: int| 0 <= k < c.len() implies tindex(tv, #[trigger] c[k], 0) is Some by {
                if k > 0 {
                    assert(c[k] == rest[k - 1]);
                }
            }
        }
    }
}

proof fn lemma_leftover_found(es: Seq<(String, Toml)>)
    ensures
        forall|k: int|
            0 <= k < leftover_keys(es).len() ==> exists|j: int|
                0 <= j < es.len() && es[j].0 == #[trigger] leftover_keys(es)[k],
    decreases es.len(),
{
    if es.len() > 0 {
        let t = es.drop_last();
        lemma_leftover_found(t);
        let l = leftover_keys(es);
        assert forall|k: int| 0 <= k < l.len() implies exists|j: int| 0 <= j < es.len() && es[j].0 == #[trigger] l[k] by {
            if k < leftover_keys(t).len() {
                assert(l[k] == leftover_keys(t)[k]);
                let j = choose|j: int| 0 <= j < t.len() && t[j].0 == leftover_keys(t)[k];
                assert(es[j] == t[j]);
            } else {
                assert(es[es.len() - 1].0 == l[k]);
            }
        }
    }
}

/// Every key in the serialization order is one the table holds.
proof fn lemma_order_found(es: Seq<(String, Toml)>)
    ensures
        forall|k: int|
            0 <= k < serialization_order(es).len() ==> tindex(tview(es), #[trigger] serialization_order(es)[k], 0) is Some,
{
    let tv = tview(es);
    let cp = canonical_present(tv, 0);
    let lk = leftover_keys(es);
    let sorted = stable_sorted(lk);
    let so = serialization_order(es);
    lemma_canonical_present_found(tv, 0);
    lemma_leftover_found(es);
    crate::sort::lemma_stable_sorted_elements(lk);
    assert forall|k: int| 0 <= k < so.len() implies tindex(tv, #[trigger] so[k], 0) is Some by {
        if k < cp.len() {
            assert(so[k] == cp[k]);
        } else {
            let q = k - cp.len();
            assert(so[k] == sorted[q]@);
            assert(sorted.contains(sorted[q]));
            assert(lk.contains(sorted[q]));
            let m = choose|m: int| 0 <= m < lk.len() && lk[m] == sorted[q];
            let j = choose|j: int| 0 <= j < es.len() && es[j].0 == #[trigger] lk[m];
            assert(tv[j].0 == so[k]);
            crate::toml_doc::lemma_tindex(tv, so[k], 0);
        }
    }
}

fn canonical_present_exec(top: &Vec<(String, Toml)>) -> (r: Vec<String>)
    ensures
        r.deep_view() == canonical_present(tview(top@), 0),
{
    let order = canonical_key_order();
    let mut r: Vec<String> = Vec::new();
    let mut i: usize = 0;
    while i < 15
        invariant
            order@.len() == 15,
            forall|k: int| 0 <= k < 15 ==> (#[trigger] order@[k])@ == canonical_keys()[k],
            i <= 15,
            r.deep_view() + canonical_present(tview(top@), i as int) == canonical_present(tview(top@), 0),
        decreases 15 - i,
    {
        let c = order[i];
        let ghost before = r.deep_view();
        if tbl_index(top, c).is_some() {
            r.push(c.to_owned());
            assert(r.deep_view() =~= before.push(canonical_keys()[i as int]));
            assert(before + canonical_present(tview(top@), i as int) =~= r.deep_view() + canonical_present(
                tview(top@),
                i + 1,
            ));
        }
        i = i + 1;
    }
    assert(r.deep_view() + Seq::<Seq<char>>::empty() =~= r.deep_view());
    r
}

fn is_canonical_key(k: &str) -> (r: bool)
    ensures
        r == canonical_keys().contains(k@),
{
    let order = canonical_key_order();
    let mut i: usize = 0;
    while i < 15
        invariant
            order@.len() == 15,
            forall|m: int| 0 <= m < 15 ==> (#[trigger] order@[m])@ == canonical_keys()[m],
            i <= 15,
            forall|m: int| 0 <= m < i ==> canonical_keys()[m] != k@,
        decreases 15 - i,
    {
        if str_eq(order[i], k) {
            assert(canonical_keys()[i as int] == k@);
            return true;
        }
        i = i + 1;
    }
    false
}

fn leftover_keys_exec(top: &Vec<(String, Toml)>) -> (r: Vec<String>)
    ensures
        r@ == leftover_keys(top@),
{
    let mut r: Vec<String> = Vec::new();
    let mut i: usize = 0;
    while i < top.len()
        invariant
            i <= top@.len(),
            r@ == leftover_keys(top@.take(i as int)),
        decreases top@.len() - i,
    {
        assert(top@.take(i + 1).drop_last() =~= top@.take(i as int));
        assert(top@.take(i + 1).last() == top@[i as int]);
        if !is_canonical_key(top[i].0.as_str()) {
            r.push(top[i].0.clone());
        }
        i = i + 1;
    }
    assert(top@.take(top@.len() as int) =~= top@);
    r
}

/// The keys of `top` in the order they are written.
fn build_order(top: &Vec<(String, Toml)>) -> (r: Vec<String>)
    ensures
        r.deep_view() == serialization_order(top@),
{
    let mut order = canonical_present_exec(top);
    let left = stable_sort(leftover_keys_exec(top));
    let ghost o0 = order.deep_view();
    let mut j: usize = 0;
    while j < left.len()
        invariant
            o0 == canonical_present(tview(top@), 0),
            left@ == stable_sorted(leftover_keys(top@)),
            j <= left@.len(),
            order.deep_view() == o0 + left@.take(j as int).map_values(|s: String| s@),
        decreases left@.len() - j,
    {
        let ghost before = order.deep_view();
        order.push(left[j].clone());
        assert(left@.take(j + 1).map_values(|s: String| s@) =~= left@.take(j as int).map_values(|s: String| s@).push(
            left@[j as int]@,
        ));
        assert(order.deep_view() =~= before.push(left@[j as int]@));
        j = j + 1;
    }
    assert(left@.take(left@.len() as int) =~= left@);
    order
}

/// `toml`'s text for each key of `order` with its value in `top`, or the
/// error for the first key it cannot write.
fn render_segments(top: &Vec<(String, Toml)>, order: &Vec<String>) -> (r: Result<Vec<String>, Error>)
    requires
        forall|k: int| 0 <= k < order@.len() ==> tindex(tview(top@), #[trigger] order@[k]@, 0) is Some,
    ensures
        match r {
            Ok(segs) => segs@.len() == order@.len() && forall|k: int|
                0 <= k < order@.len() ==> segment_of(tview(top@), order@[k]@, Ok(#[trigger] segs@[k]@)),
            Err(_) => exists|i: int, m: Seq<char>|
                {
                    &&& 0 <= i < order@.len()
                    &&& #[trigger] segment_of(tview(top@), order@[i]@, Err(m))
                    &&& is_overlay_err(r, segment_error_text(order@[i]@, m))
                    &&& forall|k: int| 0 <= k < i ==> segment_writes(tview(top@), #[trigger] order@[k]@)
                },
        },
{
    let ghost tv = tview(top@);
    let mut segs: Vec<String> = Vec::new();
    let mut i: usize = 0;
    while i < order.len()
        invariant
            tv == tview(top@),
            forall|k: int| 0 <= k < order@.len() ==> tindex(tv, #[trigger] order@[k]@, 0) is Some,
            i <= order@.len(),
            segs@.len() == i,
            forall|k: int| 0 <= k < i ==> segment_of(tv, order@[k]@, Ok(#[trigger] segs@[k]@)),
        decreases order@.len() - i,
    {
        let key = &order[i];
        let idx = match tbl_index(top, key.as_str()) {
            Some(x) => x,
            None => {
                assert(tindex(tv, order@[i as int]@, 0) is Some);
                return Err(Error::TomlParse { path: "<overlay>".to_owned(), message: String::new() });
            },
        };
        proof {
            lemma_tindex(tv, key@, 0);
        }
        let v = value_of_doc(&top[idx].1);
        let ghost tree = crate::toml_model::toml_tree(v);
        proof {
            assert(tget(tv, key@)->Some_0 == top@[idx as int].1.view_toml());
        }
        match toml_single_key_text(key.as_str(), v) {
            Ok(seg) => {
                assert(segment_of(tv, order@[i as int]@, Ok(seg@)));
                segs.push(seg);
            },
            Err(e) => {
                let ghost m = e@;
                assert(segment_of(tv, order@[i as int]@, Err(m)));
                let mut msg = String::new();
                push_str(&mut msg, "overlay serializer failed for `");
                push_string(&mut msg, key);
                push_str(&mut msg, "`: ");
                push_string(&mut msg, &e);
                let r = Err(Error::TomlParse { path: "<overlay>".to_owned(), message: msg });
                assert forall|k: int| 0 <= k < i implies segment_writes(tview(top@), #[trigger] order@[k]@) by {
                    assert(segment_of(tview(top@), order@[k]@, Ok(segs@[k]@)));
                }
                assert(is_overlay_err(r, segment_error_text(order@[i as int]@, m)));
                assert({
                    &&& 0 <= i < order@.len()
                    &&& segment_of(tview(top@), order@[i as int]@, Err(m))
                    &&& is_overlay_err(r, segment_error_text(order@[i as int]@, m))
                    &&& forall|k: int| 0 <= k < i ==> segment_writes(tview(top@), #[trigger] order@[k]@)
                });
                return r;
            },
        }
        i = i + 1;
    }
    Ok(segs)
}

/// The segments joined with `\n`.
fn join_segments(segs: &Vec<String>) -> (joined: String)
    ensures
        joined@ == join_nl(segs.deep_view()),
{
    let mut joined = String::new();
    let mut k: usize = 0;
    while k < segs.len()
        invariant
            k <= segs@.len(),
            joined@ == join_nl(segs.deep_view().take(k as int)),
        decreases segs@.len() - k,
    {
        if k > 0 {
            push_char(&mut joined, '\n');
        }
        push_string(&mut joined, &segs[k]);
        proof {
            let t = segs.deep_view().take(k + 1);
            assert(t.drop_last() =~= segs.deep_view().take(k as int));
            assert(t.last() == segs@[k as int]@);
            if k == 0 {
                assert(joined@ =~= t[0]);
            }
        }
        k = k + 1;
    }
    assert(segs.deep_view().take(segs@.len() as int) =~= segs.deep_view());
    joined
}

/// `r` is what [`serialize_canonical`] gives for `value`: for a table,
/// the segments `toml` writes for its keys in [`serialization_order`],
/// joined and post-processed, or the error for the first key `toml`
/// cannot write; for any other value, the shape error.
pub open spec fn serialized(value: Toml, r: Result<String, Error>) -> bool {
    match value.view_toml() {
        TomlV::Table(top) => match r {
            Ok(s) => exists|segs: Seq<Seq<char>>|
                {
                    &&& #[trigger] segs.len() == serialization_order(value->Table_0@).len()
                    &&& forall|i: int|
                        0 <= i < segs.len() ==> segment_of(
                            top,
                            serialization_order(value->Table_0@)[i],
                            Ok(#[trigger] segs[i]),
                        )
                    &&& s@ == post_process(join_nl(segs))
                },
            Err(e) => exists|i: int, m: Seq<char>|
                {
                    &&& 0 <= i < serialization_order(value->Table_0@).len()
                    &&& #[trigger] segment_of(top, serialization_order(value->Table_0@)[i], Err(m))
                    &&& is_overlay_err(r, segment_error_text(serialization_order(value->Table_0@)[i], m))
                    &&& forall|k: int|
                        0 <= k < i ==> segment_writes(top, #[trigger] serialization_order(value->Table_0@)[k])
                },
        },
        other => is_overlay_err(r, shape_error_text(kind_text(other))),
    }
}

/// The serialized manifest: top-level tables in Cargo's order (then the
/// others in sorted order), each written by `toml` as a one-entry table,
/// joined with `\n` and brought to the manifest byte shape. A document
/// that is not a table is refused, and so is the first value `toml`
/// cannot write.
pub fn serialize_canonical(value: &Toml) -> (r: Result<String, Error>)
    ensures
        serialized(*value, r),
{
    let top = match value {
        Toml::Table(t) => t,
        other => {
            let mut m = String::new();
            push_str(&mut m, "overlay serializer expected a TOML document (table) at the top level, got `");
            push_str(&mut m, value_kind_name(other));
            push_str(&mut m, "`");
            return Err(Error::TomlParse { path: "<overlay>".to_owned(), message: m });
        },
    };
    proof {
        lemma_table_view(*top);
        lemma_order_found(top@);
    }
    assert(value.view_toml() == TomlV::Table(tview(top@)));
    assert(value->Table_0@ == top@);
    let order = build_order(top);
    let ghost so = serialization_order(top@);
    assert forall|k: int| 0 <= k < order@.len() implies #[trigger] order@[k]@ == so[k] by {
        assert(order.deep_view()[k] == order@[k]@);
    }
    let rendered = render_segments(top, &order);
    let ghost rs = rendered;
    let segs = match rendered {
        Ok(x) => x,
        Err(e) => {
            let r = Err(e);
            proof {
                let (i, m) = choose|i: int, m: Seq<char>|
                    {
                        &&& 0 <= i < order@.len()
                        &&& #[trigger] segment_of(tview(top@), order@[i]@, Err(m))
                        &&& is_overlay_err(rs, segment_error_text(order@[i]@, m))
                        &&& forall|k: int| 0 <= k < i ==> segment_writes(tview(top@), #[trigger] order@[k]@)
                    };
                assert(order.deep_view()[i] == order@[i]@);
                assert forall|k: int| 0 <= k < i implies segment_writes(tview(top@), #[trigger] so[k]) by {
                    assert(order.deep_view()[k] == order@[k]@);
                    assert(order@[k] == order@[k]);
                }
                assert(segment_of(tview(top@), so[i], Err(m)));
                assert(is_overlay_err(r, segment_error_text(so[i], m)));
                assert(0 <= i < so.len());
                let tt = value.view_toml()->Table_0;
                let so2 = serialization_order(value->Table_0@);
                assert(tt == tview(top@) && so2 == so);
                assert(exists|i2: int, m2: Seq<char>|
                    {
                        &&& 0 <= i2 < so2.len()
                        &&& #[trigger] segment_of(tt, so2[i2], Err(m2))
                        &&& is_overlay_err(r, segment_error_text(so2[i2], m2))
                        &&& forall|k: int| 0 <= k < i2 ==> segment_writes(tt, #[trigger] so2[k])
                    });
            }
            return r;
        },
    };
    let joined = join_segments(&segs);
    let out = post_process_output(joined.as_str());
    proof {
        let sv = segs.deep_view();
        assert forall|q: int| 0 <= q < sv.len() implies segment_of(
            tview(top@),
            serialization_order(top@)[q],
            Ok(#[trigger] sv[q]),
        ) by {
            assert(sv[q] == segs@[q]@);
            assert(order.deep_view()[q] == order@[q]@);
        }
    }
    Ok(out)
}

} // verus!
