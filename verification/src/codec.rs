//! How the parts of a sidecar are written as JSON values and read back.

use vstd::prelude::*;
use crate::jsheet::{
    ColumnConstraint, ColumnStyle, ColumnType, ConditionalFormat, FormatModel, RuleModel, StyleModel,
    SummaryKind, ValidationRule,
};
use crate::model::Model;
use crate::number::{whole_u64, Number, SCALE};
use crate::strmap::{
    lemma_sorted_list, lemma_sorted_pairs, pairs_map, rising, sorted_keys, sorted_list,
    sorted_pairs, StrMap, StrSet,
};
use crate::text::same_text;
use crate::value::{Value, ValueModel};

verus! {

broadcast use vstd::std_specs::vec::group_vec_axioms;

/// A type whose values are written as JSON values and read back from them.
pub trait Json: Model {
    /// The JSON value that a value is written as.
    spec fn json_of(m: Self::M) -> ValueModel;

    /// The value that a JSON value is read as; none where it is read as none.
    spec fn of_json(v: ValueModel) -> Option<Self::M>;

    fn to_json(&self) -> (r: Value)
        ensures
            r.model() == Self::json_of(self.model()),
    ;

    fn from_json(v: &Value) -> (r: Option<Self>)
        ensures
            r.model() == Self::of_json(v.model()),
    ;

    /// What every value of the type holds of: the order of the keys of a
    /// map, and the like.
    spec fn well_formed(m: Self::M) -> bool;

    /// What is written is read back as it was.
    proof fn lemma_round_trip(m: Self::M)
        requires
            Self::well_formed(m),
        ensures
            Self::of_json(Self::json_of(m)) == Some(m),
    ;
}

impl Json for String {
    open spec fn json_of(m: Seq<char>) -> ValueModel {
        ValueModel::Text(m)
    }

    open spec fn of_json(v: ValueModel) -> Option<Seq<char>> {
        match v {
            ValueModel::Text(s) => Some(s),
            _ => None,
        }
    }

    fn to_json(&self) -> (r: Value) {
        Value::String(self.clone())
    }

    fn from_json(v: &Value) -> (r: Option<Self>) {
        match v {
            Value::String(s) => Some(s.clone()),
            _ => None,
        }
    }

    open spec fn well_formed(m: Seq<char>) -> bool {
        true
    }

    proof fn lemma_round_trip(m: Seq<char>) {
    }
}

impl Json for Value {
    open spec fn json_of(m: ValueModel) -> ValueModel {
        m
    }

    open spec fn of_json(v: ValueModel) -> Option<ValueModel> {
        Some(v)
    }

    fn to_json(&self) -> (r: Value) {
        self.copy_of()
    }

    fn from_json(v: &Value) -> (r: Option<Self>) {
        Some(v.copy_of())
    }

    open spec fn well_formed(m: ValueModel) -> bool {
        true
    }

    proof fn lemma_round_trip(m: ValueModel) {
    }
}

/// The values that the first `n` items are read as; none where one is read as none.
pub open spec fn items_of_json<T: Json>(items: Seq<ValueModel>, n: int) -> Option<Seq<T::M>>
    decreases n,
{
    if n <= 0 {
        Some(Seq::empty())
    } else {
        match (items_of_json::<T>(items, n - 1), T::of_json(items[n - 1])) {
            (Some(head), Some(m)) => Some(head.push(m)),
            _ => None,
        }
    }
}

impl<T: Json> Json for Vec<T> {
    open spec fn json_of(m: Seq<T::M>) -> ValueModel {
        ValueModel::Array(Seq::new(m.len(), |i: int| T::json_of(m[i])))
    }

    open spec fn of_json(v: ValueModel) -> Option<Seq<T::M>> {
        match v {
            ValueModel::Array(items) => items_of_json::<T>(items, items.len() as int),
            _ => None,
        }
    }

    fn to_json(&self) -> (r: Value) {
        let mut items: Vec<Value> = Vec::new();
        let mut i: usize = 0;
        while i < self.len()
            invariant
                i <= self.len(),
                items@.len() == i,
                forall|k: int|
                    0 <= k < i ==> (#[trigger] items@[k]).model() == T::json_of(self@[k].model()),
            decreases self.len() - i,
        {
            items.push(self[i].to_json());
            i += 1;
        }
        let r = Value::Array(items);
        assert(r.model()->Array_0 =~= Self::json_of(self.model())->Array_0);
        r
    }

    #[verifier::loop_isolation(false)]
    fn from_json(v: &Value) -> (r: Option<Self>) {
        match v {
            Value::Array(items) => {
                let ghost im = v.model()->Array_0;
                let mut out: Vec<T> = Vec::new();
                let mut i: usize = 0;
                assert(out.model() =~= Seq::<T::M>::empty());
                while i < items.len()
                    invariant
                        i <= items.len(),
                        items_of_json::<T>(im, i as int) == Some(out.model()),
                    decreases items.len() - i,
                {
                    assert(im[i as int] == items@[i as int].model());
                    let ghost before = out.model();
                    match T::from_json(&items[i]) {
                        Some(t) => {
                            out.push(t);
                            assert(out.model() =~= before.push(t.model()));
                        },
                        None => {
                            proof {
                                lemma_items_fail::<T>(im, i + 1, items@.len() as int);
                            }
                            return None;
                        },
                    }
                    i += 1;
                }
                Some(out)
            },
            _ => None,
        }
    }

    open spec fn well_formed(m: Seq<T::M>) -> bool {
        forall|i: int| 0 <= i < m.len() ==> T::well_formed(#[trigger] m[i])
    }

    proof fn lemma_round_trip(m: Seq<T::M>) {
        lemma_items_come_back::<T>(m, m.len() as int);
        assert(m.take(m.len() as int) =~= m);
    }
}

proof fn lemma_items_come_back<T: Json>(m: Seq<T::M>, n: int)
    requires
        0 <= n <= m.len(),
        forall|i: int| 0 <= i < m.len() ==> T::well_formed(#[trigger] m[i]),
    ensures
        items_of_json::<T>(Seq::new(m.len(), |i: int| T::json_of(m[i])), n) == Some(m.take(n)),
    decreases n,
{
    let items = Seq::new(m.len(), |i: int| T::json_of(m[i]));
    if n == 0 {
        assert(m.take(0) =~= Seq::<T::M>::empty());
    } else {
        lemma_items_come_back::<T>(m, n - 1);
        T::lemma_round_trip(m[n - 1]);
        assert(items[n - 1] == T::json_of(m[n - 1]));
        assert(m.take(n - 1).push(m[n - 1]) =~= m.take(n));
    }
}

proof fn lemma_items_fail<T: Json>(items: Seq<ValueModel>, at: int, n: int)
    requires
        0 < at <= n,
        items_of_json::<T>(items, at) is None,
    ensures
        items_of_json::<T>(items, n) is None,
    decreases n - at,
{
    if at < n {
        lemma_items_fail::<T>(items, at, n - 1);
    }
}

} // verus!

verus! {

impl Json for usize {
    open spec fn json_of(m: usize) -> ValueModel {
        ValueModel::Number(m * SCALE)
    }

    open spec fn of_json(v: ValueModel) -> Option<usize> {
        match v {
            ValueModel::Number(u) => match whole_u64(u) {
                Some(n) => if n <= usize::MAX {
                    Some(n as usize)
                } else {
                    None
                },
                None => None,
            },
            _ => None,
        }
    }

    fn to_json(&self) -> (r: Value) {
        Value::Number(Number::from_u64(*self as u64))
    }

    fn from_json(v: &Value) -> (r: Option<Self>) {
        match v {
            Value::Number(n) => match n.as_u64() {
                Some(k) => {
                    if k <= usize::MAX as u64 {
                        Some(k as usize)
                    } else {
                        None
                    }
                },
                None => None,
            },
            _ => None,
        }
    }

    open spec fn well_formed(m: usize) -> bool {
        true
    }

    proof fn lemma_round_trip(m: usize) {
        let s = SCALE as int;
        assert((m * s) % s == 0 && (m * s) / s == m) by (nonlinear_arith)
            requires
                s == 1_000_000_000_000_000_000,
                m >= 0,
        ;
    }
}

impl Json for Number {
    open spec fn json_of(m: int) -> ValueModel {
        ValueModel::Number(m)
    }

    open spec fn of_json(v: ValueModel) -> Option<int> {
        match v {
            ValueModel::Number(u) => Some(u),
            _ => None,
        }
    }

    fn to_json(&self) -> (r: Value) {
        Value::Number(*self)
    }

    fn from_json(v: &Value) -> (r: Option<Self>) {
        match v {
            Value::Number(n) => Some(*n),
            _ => None,
        }
    }

    open spec fn well_formed(m: int) -> bool {
        true
    }

    proof fn lemma_round_trip(m: int) {
    }
}

/// The map that the first `n` members are read as, a later member of a name
/// over an earlier one; none where a value is read as none.
pub open spec fn map_of_json<V: Json>(members: Seq<(Seq<char>, ValueModel)>, n: int) -> Option<
    Map<Seq<char>, V::M>,
>
    decreases n,
{
    if n <= 0 {
        Some(Map::empty())
    } else {
        match (map_of_json::<V>(members, n - 1), V::of_json(members[n - 1].1)) {
            (Some(head), Some(m)) => Some(head.insert(members[n - 1].0, m)),
            _ => None,
        }
    }
}

proof fn lemma_map_fails<V: Json>(members: Seq<(Seq<char>, ValueModel)>, at: int, n: int)
    requires
        0 < at <= n,
        map_of_json::<V>(members, at) is None,
    ensures
        map_of_json::<V>(members, n) is None,
    decreases n - at,
{
    if at < n {
        lemma_map_fails::<V>(members, at, n - 1);
    }
}

impl<V: Json> Json for StrMap<V> {
    open spec fn json_of(m: Seq<(Seq<char>, V::M)>) -> ValueModel {
        ValueModel::Object(Seq::new(m.len(), |i: int| (m[i].0, V::json_of(m[i].1))))
    }

    open spec fn of_json(v: ValueModel) -> Option<Seq<(Seq<char>, V::M)>> {
        match v {
            ValueModel::Object(members) => match map_of_json::<V>(members, members.len() as int) {
                Some(map) => Some(sorted_pairs(map)),
                None => None,
            },
            _ => None,
        }
    }

    fn to_json(&self) -> (r: Value) {
        let n = self.len();
        let mut members: Vec<(String, Value)> = Vec::new();
        let mut i: usize = 0;
        while i < n
            invariant
                i <= n,
                n == self.pairs().len(),
                members@.len() == i,
                forall|k: int|
                    0 <= k < i ==> (#[trigger] members@[k]).0@ == self.pairs()[k].0
                        && members@[k].1.model() == V::json_of(self.pairs()[k].1),
            decreases n - i,
        {
            members.push((self.key_at(i).clone(), self.value_at(i).to_json()));
            i += 1;
        }
        let r = Value::Object(members);
        assert(r.model()->Object_0 =~= Self::json_of(self.model())->Object_0);
        r
    }

    #[verifier::loop_isolation(false)]
    fn from_json(v: &Value) -> (r: Option<Self>) {
        match v {
            Value::Object(members) => {
                let ghost mm = v.model()->Object_0;
                let mut out: StrMap<V> = StrMap::new();
                let mut i: usize = 0;
                while i < members.len()
                    invariant
                        i <= members.len(),
                        map_of_json::<V>(mm, i as int) == Some(out.map()),
                    decreases members.len() - i,
                {
                    assert(mm[i as int] == (members@[i as int].0@, members@[i as int].1.model()));
                    match V::from_json(&members[i].1) {
                        Some(x) => {
                            out.insert(members[i].0.clone(), x);
                        },
                        None => {
                            proof {
                                lemma_map_fails::<V>(mm, i + 1, members@.len() as int);
                            }
                            return None;
                        },
                    }
                    i += 1;
                }
                let n = out.len();
                proof {
                    lemma_sorted_pairs(out.pairs());
                }
                Some(out)
            },
            _ => None,
        }
    }

    open spec fn well_formed(m: Seq<(Seq<char>, V::M)>) -> bool {
        &&& sorted_keys(m)
        &&& forall|i: int| 0 <= i < m.len() ==> V::well_formed((#[trigger] m[i]).1)
    }

    proof fn lemma_round_trip(m: Seq<(Seq<char>, V::M)>) {
        lemma_map_comes_back::<V>(m, m.len() as int);
        assert(m.take(m.len() as int) =~= m);
        lemma_sorted_pairs(m);
    }
}

proof fn lemma_map_comes_back<V: Json>(m: Seq<(Seq<char>, V::M)>, n: int)
    requires
        0 <= n <= m.len(),
        sorted_keys(m),
        forall|i: int| 0 <= i < m.len() ==> V::well_formed((#[trigger] m[i]).1),
    ensures
        map_of_json::<V>(Seq::new(m.len(), |i: int| (m[i].0, V::json_of(m[i].1))), n) == Some(
            pairs_map(m.take(n)),
        ),
        sorted_keys(m.take(n)),
    decreases n,
{
    let members = Seq::new(m.len(), |i: int| (m[i].0, V::json_of(m[i].1)));
    let q = m.take(n);
    assert forall|i: int, j: int| 0 <= i < j < q.len() implies crate::text::text_lt(
        #[trigger] q[i].0,
        #[trigger] q[j].0,
    ) by {
        assert(q[i] == m[i]);
        assert(q[j] == m[j]);
    }
    if n == 0 {
        assert(pairs_map(q) =~= Map::<Seq<char>, V::M>::empty());
    } else {
        lemma_map_comes_back::<V>(m, n - 1);
        V::lemma_round_trip(m[n - 1].1);
        assert(members[n - 1] == (m[n - 1].0, V::json_of(m[n - 1].1)));
        let h = m.take(n - 1);
        let k = m[n - 1].0;
        assert forall|i: int| 0 <= i < h.len() implies crate::text::text_lt(
            (#[trigger] h[i]).0,
            k,
        ) by {
            assert(h[i] == m[i]);
        }
        if crate::strmap::has_key(h, k) {
            let i = crate::strmap::index_of_key(h, k);
            assert(h[i].0 == k);
            crate::text::lemma_text_order(k, k, k);
        }
        crate::strmap::lemma_insert_pairs(h, n - 1, k, m[n - 1].1);
        assert(h.insert(n - 1, (k, m[n - 1].1)) =~= q);
    }
}

/// The names that the first `n` items are read as; none where one is no text.
pub open spec fn names_of_json(items: Seq<ValueModel>, n: int) -> Option<Set<Seq<char>>>
    decreases n,
{
    if n <= 0 {
        Some(Set::empty())
    } else {
        match (names_of_json(items, n - 1), items[n - 1]) {
            (Some(head), ValueModel::Text(s)) => Some(head.insert(s)),
            _ => None,
        }
    }
}

proof fn lemma_names_fail(items: Seq<ValueModel>, at: int, n: int)
    requires
        0 < at <= n,
        names_of_json(items, at) is None,
    ensures
        names_of_json(items, n) is None,
    decreases n - at,
{
    if at < n {
        lemma_names_fail(items, at, n - 1);
    }
}

impl Json for StrSet {
    open spec fn json_of(m: Seq<Seq<char>>) -> ValueModel {
        ValueModel::Array(Seq::new(m.len(), |i: int| ValueModel::Text(m[i])))
    }

    open spec fn of_json(v: ValueModel) -> Option<Seq<Seq<char>>> {
        match v {
            ValueModel::Array(items) => match names_of_json(items, items.len() as int) {
                Some(set) => Some(sorted_list(set)),
                None => None,
            },
            _ => None,
        }
    }

    fn to_json(&self) -> (r: Value) {
        let n = self.len();
        let mut items: Vec<Value> = Vec::new();
        let mut i: usize = 0;
        while i < n
            invariant
                i <= n,
                n == self.items().len(),
                items@.len() == i,
                forall|k: int|
                    0 <= k < i ==> (#[trigger] items@[k]).model() == ValueModel::Text(self.items()[k]),
            decreases n - i,
        {
            items.push(Value::String(self.item_at(i).clone()));
            i += 1;
        }
        let r = Value::Array(items);
        assert(r.model()->Array_0 =~= Self::json_of(self.model())->Array_0);
        r
    }

    #[verifier::loop_isolation(false)]
    fn from_json(v: &Value) -> (r: Option<Self>) {
        match v {
            Value::Array(items) => {
                let ghost im = v.model()->Array_0;
                let mut out = StrSet::new();
                let mut i: usize = 0;
                while i < items.len()
                    invariant
                        i <= items.len(),
                        names_of_json(im, i as int) == Some(out.set()),
                    decreases items.len() - i,
                {
                    assert(im[i as int] == items@[i as int].model());
                    match &items[i] {
                        Value::String(s) => {
                            out.insert(s.clone());
                        },
                        _ => {
                            proof {
                                lemma_names_fail(im, i + 1, items@.len() as int);
                            }
                            return None;
                        },
                    }
                    i += 1;
                }
                let n = out.len();
                proof {
                    lemma_sorted_list(out.items(), out.set());
                }
                Some(out)
            },
            _ => None,
        }
    }

    open spec fn well_formed(m: Seq<Seq<char>>) -> bool {
        rising(m)
    }

    proof fn lemma_round_trip(m: Seq<Seq<char>>) {
        lemma_names_come_back(m, m.len() as int);
        assert(m.take(m.len() as int) =~= m);
        assert forall|k: Seq<char>| m.contains(k) <==> m.to_set().contains(k) by {}
        lemma_sorted_list(m, m.to_set());
    }
}

proof fn lemma_names_come_back(m: Seq<Seq<char>>, n: int)
    requires
        0 <= n <= m.len(),
    ensures
        names_of_json(Seq::new(m.len(), |i: int| ValueModel::Text(m[i])), n) == Some(
            m.take(n).to_set(),
        ),
    decreases n,
{
    let items = Seq::new(m.len(), |i: int| ValueModel::Text(m[i]));
    if n == 0 {
        assert(m.take(0).to_set() =~= Set::<Seq<char>>::empty());
    } else {
        lemma_names_come_back(m, n - 1);
        assert(items[n - 1] == ValueModel::Text(m[n - 1]));
        assert(m.take(n - 1).push(m[n - 1]) =~= m.take(n));
        let t = m.take(n);
        let h = m.take(n - 1);
        assert forall|k: Seq<char>| t.to_set().contains(k) <==> h.to_set().insert(
            m[n - 1],
        ).contains(k) by {
            if t.contains(k) {
                let i = choose|i: int| 0 <= i < t.len() && #[trigger] t[i] == k;
                if i < n - 1 {
                    assert(h[i] == k);
                }
            }
            if h.contains(k) {
                let i = choose|i: int| 0 <= i < h.len() && #[trigger] h[i] == k;
                assert(t[i] == k);
            }
            if k == m[n - 1] {
                assert(t[n - 1] == k);
            }
        }
        assert(t.to_set() =~= h.to_set().insert(m[n - 1]));
    }
}

} // verus!

verus! {

/// The members of an object, as models.
pub open spec fn members_model(v: Seq<(String, Value)>) -> Seq<(Seq<char>, ValueModel)> {
    Seq::new(v.len(), |i: int| (v[i].0@, v[i].1.model()))
}

/// The value of the last of the first `n` members that is named `name`.
pub open spec fn member(members: Seq<(Seq<char>, ValueModel)>, name: Seq<char>, n: int) -> Option<
    ValueModel,
>
    decreases n,
{
    if n <= 0 {
        None
    } else if n <= members.len() && members[n - 1].0 == name {
        Some(members[n - 1].1)
    } else {
        member(members, name, n - 1)
    }
}

/// The value of the member named `name`, the last one where there are several.
pub open spec fn field(members: Seq<(Seq<char>, ValueModel)>, name: Seq<char>) -> Option<
    ValueModel,
> {
    member(members, name, members.len() as int)
}

/// A member that must be there.
pub open spec fn required<T: Json>(members: Seq<(Seq<char>, ValueModel)>, name: Seq<char>) -> Option<
    T::M,
> {
    match field(members, name) {
        Some(v) => T::of_json(v),
        None => None,
    }
}

/// A member that stands for `default` where it is not there.
pub open spec fn or_default<T: Json>(
    members: Seq<(Seq<char>, ValueModel)>,
    name: Seq<char>,
    default: T::M,
) -> Option<T::M> {
    match field(members, name) {
        Some(v) => T::of_json(v),
        None => Some(default),
    }
}

/// A member that may be missing or null.
pub open spec fn optional<T: Json>(members: Seq<(Seq<char>, ValueModel)>, name: Seq<char>) -> Option<
    Option<T::M>,
> {
    match field(members, name) {
        None => Some(None),
        Some(ValueModel::Null) => Some(None),
        Some(v) => match T::of_json(v) {
            Some(m) => Some(Some(m)),
            None => None,
        },
    }
}

/// The member `name` with the value `v`, where `cond` holds; else nothing.
pub open spec fn member_if(cond: bool, name: Seq<char>, v: ValueModel) -> Seq<(Seq<char>, ValueModel)> {
    if cond {
        seq![(name, v)]
    } else {
        Seq::empty()
    }
}

/// The member `name` for a value that is there; nothing for one that is not.
pub open spec fn maybe<T: Json>(name: Seq<char>, o: Option<T::M>) -> Seq<(Seq<char>, ValueModel)> {
    match o {
        Some(m) => seq![(name, T::json_of(m))],
        None => Seq::empty(),
    }
}

/// The first `n` parts, one behind the other.
pub open spec fn joined(parts: Seq<Seq<(Seq<char>, ValueModel)>>, n: int) -> Seq<
    (Seq<char>, ValueModel),
>
    decreases n,
{
    if n <= 0 {
        Seq::empty()
    } else {
        joined(parts, n - 1) + parts[n - 1]
    }
}

/// A part that is empty or the one member named `name`.
pub open spec fn is_part(name: Seq<char>, part: Seq<(Seq<char>, ValueModel)>) -> bool {
    part.len() == 0 || (part.len() == 1 && part[0].0 == name)
}

/// A member is looked for in the later of two runs of members first.
pub proof fn lemma_field_of_two(
    a: Seq<(Seq<char>, ValueModel)>,
    b: Seq<(Seq<char>, ValueModel)>,
    name: Seq<char>,
)
    ensures
        field(a + b, name) == match field(b, name) {
            Some(v) => Some(v),
            None => field(a, name),
        },
{
    lemma_member_of_two(a, b, name, b.len() as int);
}

proof fn lemma_member_of_two(
    a: Seq<(Seq<char>, ValueModel)>,
    b: Seq<(Seq<char>, ValueModel)>,
    name: Seq<char>,
    n: int,
)
    requires
        0 <= n <= b.len(),
    ensures
        member(a + b, name, a.len() + n) == match member(b, name, n) {
            Some(v) => Some(v),
            None => field(a, name),
        },
    decreases n,
{
    if n == 0 {
        lemma_member_of_prefix(a, b, name, a.len() as int);
    } else {
        lemma_member_of_two(a, b, name, n - 1);
        assert((a + b)[a.len() + n - 1] == b[n - 1]);
    }
}

proof fn lemma_member_of_prefix(
    a: Seq<(Seq<char>, ValueModel)>,
    b: Seq<(Seq<char>, ValueModel)>,
    name: Seq<char>,
    n: int,
)
    requires
        0 <= n <= a.len(),
    ensures
        member(a + b, name, n) == member(a, name, n),
    decreases n,
{
    if n > 0 {
        lemma_member_of_prefix(a, b, name, n - 1);
        assert((a + b)[n - 1] == a[n - 1]);
    }
}

/// Among parts with names of their own, a name finds the value of its part.
pub proof fn lemma_field_of_joined(
    parts: Seq<Seq<(Seq<char>, ValueModel)>>,
    names: Seq<Seq<char>>,
    n: int,
    i: int,
)
    requires
        0 <= n <= parts.len(),
        0 <= i < parts.len(),
        names.len() == parts.len(),
        forall|j: int| 0 <= j < parts.len() ==> is_part(#[trigger] names[j], parts[j]),
        forall|j: int, k: int|
            0 <= j < names.len() && 0 <= k < names.len() && j != k ==> #[trigger] names[j]
                != #[trigger] names[k],
    ensures
        field(joined(parts, n), names[i]) == if i < n && parts[i].len() == 1 {
            Some(parts[i][0].1)
        } else {
            None
        },
    decreases n,
{
    if n > 0 {
        lemma_field_of_joined(parts, names, n - 1, i);
        lemma_field_of_two(joined(parts, n - 1), parts[n - 1], names[i]);
        let last = parts[n - 1];
        assert(is_part(names[n - 1], last));
        reveal_with_fuel(member, 3);
        if last.len() == 1 && i != n - 1 {
            assert(names[i] != names[n - 1]);
        }
    }
}

fn object(members: Vec<(String, Value)>) -> (r: Value)
    ensures
        r.model() == ValueModel::Object(members_model(members@)),
{
    let ghost mm = members_model(members@);
    let r = Value::Object(members);
    assert(r.model()->Object_0 =~= mm);
    r
}

fn as_object(v: &Value) -> (r: Option<&Vec<(String, Value)>>)
    ensures
        match r {
            Some(members) => v.model() == ValueModel::Object(members_model(members@)),
            None => !(v.model() is Object),
        },
{
    match v {
        Value::Object(members) => {
            assert(v.model()->Object_0 =~= members_model(members@));
            Some(members)
        },
        _ => None,
    }
}

fn find<'a>(members: &'a Vec<(String, Value)>, name: &str) -> (r: Option<&'a Value>)
    ensures
        crate::model::ref_model(r) == field(members_model(members@), name@),
{
    let ghost mm = members_model(members@);
    let mut i: usize = members.len();
    while i > 0
        invariant
            i <= members.len(),
            mm == members_model(members@),
            field(mm, name@) == member(mm, name@, i as int),
        decreases i,
    {
        assert(mm[i - 1] == (members@[i - 1].0@, members@[i - 1].1.model()));
        if same_text(members[i - 1].0.as_str(), name) {
            return Some(&members[i - 1].1);
        }
        i -= 1;
    }
    None
}

pub fn read_required<T: Json>(members: &Vec<(String, Value)>, name: &str) -> (r: Option<T>)
    ensures
        r.model() == required::<T>(members_model(members@), name@),
{
    match find(members, name) {
        Some(v) => T::from_json(v),
        None => None,
    }
}

pub fn read_or<T: Json>(members: &Vec<(String, Value)>, name: &str, default: T) -> (r: Option<T>)
    ensures
        r.model() == or_default::<T>(members_model(members@), name@, default.model()),
{
    match find(members, name) {
        Some(v) => T::from_json(v),
        None => Some(default),
    }
}

pub fn read_optional<T: Json>(members: &Vec<(String, Value)>, name: &str) -> (r: Option<Option<T>>)
    ensures
        r.model() == optional::<T>(members_model(members@), name@),
{
    match find(members, name) {
        None => Some(None),
        Some(v) => {
            if v.is_null() {
                Some(None)
            } else {
                match T::from_json(v) {
                    Some(t) => Some(Some(t)),
                    None => None,
                }
            }
        },
    }
}

pub fn push_when(out: &mut Vec<(String, Value)>, cond: bool, name: &str, value: Value)
    ensures
        members_model(final(out)@) == members_model(old(out)@) + member_if(
            cond,
            name@,
            value.model(),
        ),
{
    if cond {
        out.push((name.to_owned(), value));
    }
    assert(members_model(out@) =~= members_model(old(out)@) + member_if(cond, name@, value.model()));
}

pub fn push_maybe<T: Json>(out: &mut Vec<(String, Value)>, name: &str, value: &Option<T>)
    ensures
        members_model(final(out)@) == members_model(old(out)@) + maybe::<T>(name@, value.model()),
{
    match value {
        Some(t) => {
            out.push((name.to_owned(), t.to_json()));
        },
        None => {},
    }
    assert(members_model(out@) =~= members_model(old(out)@) + maybe::<T>(name@, value.model()));
}

impl Json for ColumnType {
    open spec fn json_of(m: ColumnType) -> ValueModel {
        ValueModel::Text(
            match m {
                ColumnType::String => "string"@,
                ColumnType::Number => "number"@,
                ColumnType::Bool => "bool"@,
                ColumnType::Null => "null"@,
            },
        )
    }

    open spec fn of_json(v: ValueModel) -> Option<ColumnType> {
        match v {
            ValueModel::Text(s) => if s == "string"@ {
                Some(ColumnType::String)
            } else if s == "number"@ {
                Some(ColumnType::Number)
            } else if s == "bool"@ {
                Some(ColumnType::Bool)
            } else if s == "null"@ {
                Some(ColumnType::Null)
            } else {
                None
            },
            _ => None,
        }
    }

    fn to_json(&self) -> (r: Value) {
        let name = match self {
            ColumnType::String => "string",
            ColumnType::Number => "number",
            ColumnType::Bool => "bool",
            ColumnType::Null => "null",
        };
        Value::String(name.to_owned())
    }

    fn from_json(v: &Value) -> (r: Option<Self>) {
        match v {
            Value::String(s) => {
                if same_text(s.as_str(), "string") {
                    Some(ColumnType::String)
                } else if same_text(s.as_str(), "number") {
                    Some(ColumnType::Number)
                } else if same_text(s.as_str(), "bool") {
                    Some(ColumnType::Bool)
                } else if same_text(s.as_str(), "null") {
                    Some(ColumnType::Null)
                } else {
                    None
                }
            },
            _ => None,
        }
    }

    open spec fn well_formed(m: ColumnType) -> bool {
        true
    }

    proof fn lemma_round_trip(m: ColumnType) {
        reveal_strlit("string");
        reveal_strlit("number");
        reveal_strlit("bool");
        reveal_strlit("null");
        assert("number"@[0] != "string"@[0]);
        assert("bool"@[0] != "null"@[0]);
        assert("string"@.len() == 6 && "number"@.len() == 6 && "bool"@.len() == 4 && "null"@.len()
            == 4);
    }
}

impl Json for SummaryKind {
    open spec fn json_of(m: SummaryKind) -> ValueModel {
        ValueModel::Text(
            match m {
                SummaryKind::Sum => "SUM"@,
                SummaryKind::Avg => "AVG"@,
                SummaryKind::Count => "COUNT"@,
                SummaryKind::Min => "MIN"@,
                SummaryKind::Max => "MAX"@,
            },
        )
    }

    open spec fn of_json(v: ValueModel) -> Option<SummaryKind> {
        match v {
            ValueModel::Text(s) => if s == "SUM"@ {
                Some(SummaryKind::Sum)
            } else if s == "AVG"@ {
                Some(SummaryKind::Avg)
            } else if s == "COUNT"@ {
                Some(SummaryKind::Count)
            } else if s == "MIN"@ {
                Some(SummaryKind::Min)
            } else if s == "MAX"@ {
                Some(SummaryKind::Max)
            } else {
                None
            },
            _ => None,
        }
    }

    fn to_json(&self) -> (r: Value) {
        let name = match self {
            SummaryKind::Sum => "SUM",
            SummaryKind::Avg => "AVG",
            SummaryKind::Count => "COUNT",
            SummaryKind::Min => "MIN",
            SummaryKind::Max => "MAX",
        };
        Value::String(name.to_owned())
    }

    fn from_json(v: &Value) -> (r: Option<Self>) {
        match v {
            Value::String(s) => {
                if same_text(s.as_str(), "SUM") {
                    Some(SummaryKind::Sum)
                } else if same_text(s.as_str(), "AVG") {
                    Some(SummaryKind::Avg)
                } else if same_text(s.as_str(), "COUNT") {
                    Some(SummaryKind::Count)
                } else if same_text(s.as_str(), "MIN") {
                    Some(SummaryKind::Min)
                } else if same_text(s.as_str(), "MAX") {
                    Some(SummaryKind::Max)
                } else {
                    None
                }
            },
            _ => None,
        }
    }

    open spec fn well_formed(m: SummaryKind) -> bool {
        true
    }

    proof fn lemma_round_trip(m: SummaryKind) {
        reveal_strlit("SUM");
        reveal_strlit("AVG");
        reveal_strlit("COUNT");
        reveal_strlit("MIN");
        reveal_strlit("MAX");
        assert("AVG"@[0] != "SUM"@[0]);
        assert("MIN"@[0] != "SUM"@[0]);
        assert("MIN"@[0] != "AVG"@[0]);
        assert("MAX"@[0] != "SUM"@[0]);
        assert("MAX"@[0] != "AVG"@[0]);
        assert("MAX"@[1] != "MIN"@[1]);
    }
}

impl Json for ColumnConstraint {
    open spec fn json_of(m: ColumnConstraint) -> ValueModel {
        ValueModel::Object(seq![("type"@, ColumnType::json_of(m.value_type))])
    }

    open spec fn of_json(v: ValueModel) -> Option<ColumnConstraint> {
        match v {
            ValueModel::Object(members) => match required::<ColumnType>(members, "type"@) {
                Some(value_type) => Some(ColumnConstraint { value_type }),
                None => None,
            },
            _ => None,
        }
    }

    fn to_json(&self) -> (r: Value) {
        let mut members: Vec<(String, Value)> = Vec::new();
        members.push(("type".to_owned(), self.value_type.to_json()));
        assert(members_model(members@) =~= seq![("type"@, ColumnType::json_of(self.value_type))]);
        object(members)
    }

    fn from_json(v: &Value) -> (r: Option<Self>) {
        match as_object(v) {
            Some(members) => match read_required::<ColumnType>(members, "type") {
                Some(value_type) => Some(ColumnConstraint { value_type }),
                None => None,
            },
            None => None,
        }
    }

    open spec fn well_formed(m: ColumnConstraint) -> bool {
        true
    }

    proof fn lemma_round_trip(m: ColumnConstraint) {
        ColumnType::lemma_round_trip(m.value_type);
        reveal_with_fuel(member, 3);
    }
}

impl Json for ColumnStyle {
    open spec fn json_of(m: StyleModel) -> ValueModel {
        ValueModel::Object(
            maybe::<String>("color"@, m.color) + maybe::<String>("background"@, m.background),
        )
    }

    open spec fn of_json(v: ValueModel) -> Option<StyleModel> {
        match v {
            ValueModel::Object(members) => match (
                optional::<String>(members, "color"@),
                optional::<String>(members, "background"@),
            ) {
                (Some(color), Some(background)) => Some(StyleModel { color, background }),
                _ => None,
            },
            _ => None,
        }
    }

    fn to_json(&self) -> (r: Value) {
        let mut members: Vec<(String, Value)> = Vec::new();
        assert(members_model(members@) =~= Seq::<(Seq<char>, ValueModel)>::empty());
        push_maybe::<String>(&mut members, "color", &self.color);
        push_maybe::<String>(&mut members, "background", &self.background);
        assert(members_model(members@) =~= maybe::<String>("color"@, self.color.model())
            + maybe::<String>("background"@, self.background.model()));
        object(members)
    }

    fn from_json(v: &Value) -> (r: Option<Self>) {
        match as_object(v) {
            Some(members) => {
                let color = match read_optional::<String>(members, "color") {
                    Some(x) => x,
                    None => {
                        return None;
                    },
                };
                let background = match read_optional::<String>(members, "background") {
                    Some(x) => x,
                    None => {
                        return None;
                    },
                };
                Some(ColumnStyle { color, background })
            },
            None => None,
        }
    }

    open spec fn well_formed(m: StyleModel) -> bool {
        true
    }

    proof fn lemma_round_trip(m: StyleModel) {
        let parts = seq![
            maybe::<String>("color"@, m.color),
            maybe::<String>("background"@, m.background),
        ];
        let names = seq!["color"@, "background"@];
        reveal_strlit("color");
        reveal_strlit("background");
        assert(names[0].len() == 5 && names[1].len() == 10);
        reveal_with_fuel(joined, 3);
        assert(joined(parts, 2) =~= parts[0] + parts[1]);
        lemma_field_of_joined(parts, names, 2, 0);
        lemma_field_of_joined(parts, names, 2, 1);
    }
}

impl Json for ValidationRule {
    open spec fn json_of(m: RuleModel) -> ValueModel {
        ValueModel::Object(
            maybe::<Number>("min"@, m.min) + maybe::<Number>("max"@, m.max) + maybe::<Vec<String>>(
                "enum_values"@,
                m.enum_values,
            ),
        )
    }

    open spec fn of_json(v: ValueModel) -> Option<RuleModel> {
        match v {
            ValueModel::Object(members) => match (
                optional::<Number>(members, "min"@),
                optional::<Number>(members, "max"@),
                optional::<Vec<String>>(members, "enum_values"@),
            ) {
                (Some(min), Some(max), Some(enum_values)) => Some(
                    RuleModel { min, max, enum_values },
                ),
                _ => None,
            },
            _ => None,
        }
    }

    fn to_json(&self) -> (r: Value) {
        let mut members: Vec<(String, Value)> = Vec::new();
        assert(members_model(members@) =~= Seq::<(Seq<char>, ValueModel)>::empty());
        push_maybe::<Number>(&mut members, "min", &self.min);
        push_maybe::<Number>(&mut members, "max", &self.max);
        push_maybe::<Vec<String>>(&mut members, "enum_values", &self.enum_values);
        assert(members_model(members@) =~= maybe::<Number>("min"@, self.min.model())
            + maybe::<Number>("max"@, self.max.model()) + maybe::<Vec<String>>(
            "enum_values"@,
            self.enum_values.model(),
        ));
        object(members)
    }

    fn from_json(v: &Value) -> (r: Option<Self>) {
        match as_object(v) {
            Some(members) => {
                let min = match read_optional::<Number>(members, "min") {
                    Some(x) => x,
                    None => {
                        return None;
                    },
                };
                let max = match read_optional::<Number>(members, "max") {
                    Some(x) => x,
                    None => {
                        return None;
                    },
                };
                let enum_values = match read_optional::<Vec<String>>(members, "enum_values") {
                    Some(x) => x,
                    None => {
                        return None;
                    },
                };
                Some(ValidationRule { min, max, enum_values })
            },
            None => None,
        }
    }

    open spec fn well_formed(m: RuleModel) -> bool {
        true
    }

    proof fn lemma_round_trip(m: RuleModel) {
        let parts = seq![
            maybe::<Number>("min"@, m.min),
            maybe::<Number>("max"@, m.max),
            maybe::<Vec<String>>("enum_values"@, m.enum_values),
        ];
        let names = seq!["min"@, "max"@, "enum_values"@];
        reveal_strlit("min");
        reveal_strlit("max");
        reveal_strlit("enum_values");
        assert("min"@[1] != "max"@[1]);
        assert(names[0].len() == 3 && names[1].len() == 3 && names[2].len() == 11);
        reveal_with_fuel(joined, 4);
        assert(joined(parts, 3) =~= parts[0] + parts[1] + parts[2]);
        lemma_field_of_joined(parts, names, 3, 0);
        lemma_field_of_joined(parts, names, 3, 1);
        lemma_field_of_joined(parts, names, 3, 2);
        match m.enum_values {
            Some(values) => {
                Vec::<String>::lemma_round_trip(values);
            },
            None => {},
        }
    }
}

/// The style without colours.
pub open spec fn plain_style() -> StyleModel {
    StyleModel { color: None, background: None }
}

impl Json for ConditionalFormat {
    open spec fn json_of(m: FormatModel) -> ValueModel {
        ValueModel::Object(
            seq![
                ("column"@, ValueModel::Text(m.column)),
                ("rule"@, ValueModel::Text(m.rule)),
                ("style"@, ColumnStyle::json_of(m.style)),
            ],
        )
    }

    open spec fn of_json(v: ValueModel) -> Option<FormatModel> {
        match v {
            ValueModel::Object(members) => match (
                required::<String>(members, "column"@),
                required::<String>(members, "rule"@),
                or_default::<ColumnStyle>(members, "style"@, plain_style()),
            ) {
                (Some(column), Some(rule), Some(style)) => Some(FormatModel { column, rule, style }),
                _ => None,
            },
            _ => None,
        }
    }

    fn to_json(&self) -> (r: Value) {
        let mut members: Vec<(String, Value)> = Vec::new();
        members.push(("column".to_owned(), Value::String(self.column.clone())));
        members.push(("rule".to_owned(), Value::String(self.rule.clone())));
        members.push(("style".to_owned(), self.style.to_json()));
        assert(members_model(members@) =~= seq![
            ("column"@, ValueModel::Text(self.column@)),
            ("rule"@, ValueModel::Text(self.rule@)),
            ("style"@, ColumnStyle::json_of(self.style.model())),
        ]);
        object(members)
    }

    fn from_json(v: &Value) -> (r: Option<Self>) {
        match as_object(v) {
            Some(members) => {
                let column = match read_required::<String>(members, "column") {
                    Some(x) => x,
                    None => {
                        return None;
                    },
                };
                let rule = match read_required::<String>(members, "rule") {
                    Some(x) => x,
                    None => {
                        return None;
                    },
                };
                let style = match read_or::<ColumnStyle>(
                    members,
                    "style",
                    ColumnStyle { color: None, background: None },
                ) {
                    Some(x) => x,
                    None => {
                        return None;
                    },
                };
                Some(ConditionalFormat { column, rule, style })
            },
            None => None,
        }
    }

    open spec fn well_formed(m: FormatModel) -> bool {
        true
    }

    proof fn lemma_round_trip(m: FormatModel) {
        let parts = seq![
            seq![("column"@, ValueModel::Text(m.column))],
            seq![("rule"@, ValueModel::Text(m.rule))],
            seq![("style"@, ColumnStyle::json_of(m.style))],
        ];
        let names = seq!["column"@, "rule"@, "style"@];
        reveal_strlit("column");
        reveal_strlit("rule");
        reveal_strlit("style");
        assert(names[0].len() == 6 && names[1].len() == 4 && names[2].len() == 5);
        reveal_with_fuel(joined, 4);
        assert(joined(parts, 3) =~= seq![
            ("column"@, ValueModel::Text(m.column)),
            ("rule"@, ValueModel::Text(m.rule)),
            ("style"@, ColumnStyle::json_of(m.style)),
        ]);
        lemma_field_of_joined(parts, names, 3, 0);
        lemma_field_of_joined(parts, names, 3, 1);
        lemma_field_of_joined(parts, names, 3, 2);
        ColumnStyle::lemma_round_trip(m.style);
    }
}

} // verus!
