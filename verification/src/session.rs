//! The decisions that a session with an MCP server makes on plain values:
//! which arguments a tool call carries, how the lists it fetches are ordered,
//! and how it finds a tool by name.
use vstd::prelude::*;
use crate::json::{entries_model, json_compact, spec_json_compact, Json, JsonModel};
use crate::json::{key_less, key_lt, lemma_key_lt_irrefl, lemma_key_lt_total, lemma_key_lt_trans};
use crate::mcp::{ClientNotification, PromptInfo, ResourceInfo, ToolInfo};
use crate::order::key_le;
use crate::text::{concat, str_eq};

verus! {

/// The entries of `v` if it is an object, else the message that reports it.
pub open spec fn spec_object_from_value(v: JsonModel) -> Result<
    Seq<(Seq<char>, JsonModel)>,
    Seq<char>,
> {
    match v {
        JsonModel::Object(es) => Ok(es),
        other => Err("expected a JSON object, got "@ + spec_json_compact(other)),
    }
}

/// The entries of a JSON object; any other value is refused.
pub fn object_from_value(value: Json) -> (r: Result<Vec<(String, Json)>, String>)
    ensures
        match r {
            Ok(es) => spec_object_from_value(value@) == Ok::<_, Seq<char>>(entries_model(es@)),
            Err(m) => spec_object_from_value(value@) == Err::<Seq<(Seq<char>, JsonModel)>, _>(m@),
        },
{
    match value {
        Json::Object(es) => Ok(es),
        other => {
            let text = json_compact(&other);
            Err(concat("expected a JSON object, got ", text.as_str()))
        },
    }
}

/// The arguments of a request, from a JSON value: an object's entries, or
/// none for an empty object; another value is refused with `message` before
/// its JSON text.
pub open spec fn spec_request_arguments(v: JsonModel, message: Seq<char>) -> Result<
    Option<Seq<(Seq<char>, JsonModel)>>,
    Seq<char>,
> {
    match v {
        JsonModel::Object(es) => if es.len() == 0 {
            Ok(None)
        } else {
            Ok(Some(es))
        },
        other => Err(message + spec_json_compact(other)),
    }
}

/// The arguments a request carries, or the message of the error.
pub open spec fn arguments_result(r: Result<Option<Vec<(String, Json)>>, String>) -> Result<
    Option<Seq<(Seq<char>, JsonModel)>>,
    Seq<char>,
> {
    match r {
        Ok(Some(es)) => Ok(Some(entries_model(es@))),
        Ok(None) => Ok(None),
        Err(m) => Err(m@),
    }
}

/// The arguments of a request, or `message` and the JSON text of a value
/// that is not an object.
fn request_arguments(arguments: Json, message: &str) -> (r: Result<Option<Vec<(String, Json)>>, String>)
    ensures
        arguments_result(r) == spec_request_arguments(arguments@, message@),
{
    match arguments {
        Json::Object(es) => {
            if es.len() == 0 {
                proof {
                    crate::json::lemma_entries_model(es@);
                }
                Ok(None)
            } else {
                proof {
                    crate::json::lemma_entries_model(es@);
                }
                Ok(Some(es))
            }
        },
        other => {
            let text = json_compact(&other);
            Err(concat(message, text.as_str()))
        },
    }
}

/// The arguments of a tool call: the entries of a JSON object, none for an
/// empty one; any other value is refused.
pub fn tool_call_arguments(arguments: Json) -> (r: Result<Option<Vec<(String, Json)>>, String>)
    ensures
        arguments_result(r) == spec_request_arguments(
            arguments@,
            "tool arguments must be a JSON object, got "@,
        ),
{
    request_arguments(arguments, "tool arguments must be a JSON object, got ")
}

/// The arguments of a prompt request: the entries of a JSON object, none for
/// an empty one; any other value is refused.
pub fn prompt_arguments(arguments: Json) -> (r: Result<Option<Vec<(String, Json)>>, String>)
    ensures
        arguments_result(r) == spec_request_arguments(
            arguments@,
            "prompt arguments must be a JSON object, got "@,
        ),
{
    request_arguments(arguments, "prompt arguments must be a JSON object, got ")
}

/// Something a session lists and finds by name: a tool or a prompt by its
/// name, a resource by its URI.
pub trait Named {
    /// The name.
    spec fn name_view(&self) -> Seq<char>;

    /// The name.
    fn name_str(&self) -> (r: &str)
        ensures
            r@ == self.name_view(),
    ;
}

impl Named for ToolInfo {
    open spec fn name_view(&self) -> Seq<char> {
        self.name@
    }

    fn name_str(&self) -> (r: &str) {
        self.name.as_str()
    }
}

impl Named for ResourceInfo {
    open spec fn name_view(&self) -> Seq<char> {
        self.uri@
    }

    fn name_str(&self) -> (r: &str) {
        self.uri.as_str()
    }
}

impl Named for PromptInfo {
    open spec fn name_view(&self) -> Seq<char> {
        self.name@
    }

    fn name_str(&self) -> (r: &str) {
        self.name.as_str()
    }
}

/// `sorted` with `x` placed after every item whose name is not greater than
/// its own.
pub open spec fn insert_by_name<T: Named>(sorted: Seq<T>, x: T) -> Seq<T>
    decreases sorted.len(),
{
    if sorted.len() == 0 || !key_lt(x.name_view(), sorted.last().name_view()) {
        sorted.push(x)
    } else {
        insert_by_name(sorted.drop_last(), x).push(sorted.last())
    }
}

/// The items ordered by name, items of equal name in the order they came,
/// as a stable `sort_by` on the names leaves them.
pub open spec fn sort_by_name<T: Named>(items: Seq<T>) -> Seq<T>
    decreases items.len(),
{
    if items.len() == 0 {
        Seq::empty()
    } else {
        insert_by_name(sort_by_name(items.drop_last()), items.last())
    }
}

/// The names of `items` never decrease.
pub open spec fn sorted_by_name<T: Named>(items: Seq<T>) -> bool {
    forall|i: int, j: int|
        0 <= i < j < items.len() ==> key_le(#[trigger] items[i].name_view(), #[trigger] items[j].name_view())
}

/// Where the items after position `p` all have greater names than `x` and
/// the one before it does not, `x` goes at `p`.
proof fn lemma_insert_at<T: Named>(s: Seq<T>, x: T, p: int)
    requires
        0 <= p <= s.len(),
        p == 0 || !key_lt(x.name_view(), s[p - 1].name_view()),
        forall|j: int| p <= j < s.len() ==> key_lt(x.name_view(), #[trigger] s[j].name_view()),
    ensures
        insert_by_name(s, x) == s.take(p).push(x) + s.skip(p),
    decreases s.len(),
{
    if p == s.len() {
        assert(s.take(p) =~= s);
        assert(s.skip(p) =~= Seq::<T>::empty());
        assert(s.take(p).push(x) + s.skip(p) =~= s.push(x));
    } else {
        let d = s.drop_last();
        assert(key_lt(x.name_view(), s[s.len() - 1].name_view()));
        assert forall|j: int| p <= j < d.len() implies key_lt(x.name_view(), #[trigger] d[j].name_view()) by {
            assert(d[j] == s[j]);
        }
        if p > 0 {
            assert(d[p - 1] == s[p - 1]);
        }
        lemma_insert_at(d, x, p);
        assert(d.take(p) =~= s.take(p));
        assert((d.take(p).push(x) + d.skip(p)).push(s.last()) =~= s.take(p).push(x) + s.skip(p));
    }
}

/// The items ordered by name, stably.
pub fn sorted_by_name_vec<T: Named>(items: Vec<T>) -> (r: Vec<T>)
    ensures
        r@ == sort_by_name(items@),
{
    let ghost all = items@;
    let mut rest = items;
    let n: usize = rest.len();
    let mut out: Vec<T> = Vec::new();
    let mut i: usize = 0;
    assert(all.skip(0) =~= all);
    assert(all.take(0) =~= Seq::<T>::empty());
    while rest.len() > 0
        invariant
            n == all.len(),
            i + rest@.len() == all.len(),
            rest@ == all.skip(i as int),
            out@ == sort_by_name(all.take(i as int)),
        decreases rest@.len(),
    {
        let x = rest.remove(0);
        assert(x == all[i as int]);
        let mut p: usize = out.len();
        while p > 0 && key_less(x.name_str(), out[p - 1].name_str())
            invariant
                p <= out@.len(),
                forall|j: int| p <= j < out@.len() ==> key_lt(x.name_view(), #[trigger] out@[j].name_view()),
            decreases p,
        {
            p = p - 1;
        }
        proof {
            lemma_insert_at(out@, x, p as int);
            assert(all.take(i + 1).drop_last() =~= all.take(i as int));
            assert(all.take(i + 1).last() == x);
        }
        out.insert(p, x);
        assert(out@ =~= sort_by_name(all.take(i + 1)));
        i = i + 1;
        assert(rest@ =~= all.skip(i as int));
    }
    assert(all.take(i as int) =~= all);
    out
}

/// Inserting by name into a list ordered by name leaves it ordered.
proof fn lemma_insert_sorted<T: Named>(s: Seq<T>, x: T)
    requires
        sorted_by_name(s),
    ensures
        sorted_by_name(insert_by_name(s, x)),
        insert_by_name(s, x).len() == s.len() + 1,
        forall|i: int| 0 <= i < s.len() + 1 ==> #[trigger] insert_by_name(s, x)[i] == x || s.contains(
            insert_by_name(s, x)[i],
        ),
    decreases s.len(),
{
    let r = insert_by_name(s, x);
    if s.len() == 0 || !key_lt(x.name_view(), s.last().name_view()) {
        assert forall|i: int, j: int| 0 <= i < j < r.len() implies key_le(
            #[trigger] r[i].name_view(),
            #[trigger] r[j].name_view(),
        ) by {
            if j == r.len() - 1 {
                lemma_key_lt_total(x.name_view(), s.last().name_view());
                if i < s.len() - 1 {
                    assert(key_le(s[i].name_view(), s[s.len() - 1].name_view()));
                    if key_lt(s[i].name_view(), s.last().name_view()) && key_lt(s.last().name_view(), x.name_view()) {
                        lemma_key_lt_trans(s[i].name_view(), s.last().name_view(), x.name_view());
                    }
                }
            }
        }
        assert forall|i: int| 0 <= i < s.len() + 1 implies #[trigger] r[i] == x || s.contains(r[i]) by {
            if i < s.len() {
                assert(r[i] == s[i]);
            }
        }
    } else {
        let d = s.drop_last();
        assert(sorted_by_name(d)) by {
            assert forall|i: int, j: int| 0 <= i < j < d.len() implies key_le(
                #[trigger] d[i].name_view(),
                #[trigger] d[j].name_view(),
            ) by {
                assert(d[i] == s[i] && d[j] == s[j]);
            }
        }
        lemma_insert_sorted(d, x);
        let m = insert_by_name(d, x);
        assert forall|i: int, j: int| 0 <= i < j < r.len() implies key_le(
            #[trigger] r[i].name_view(),
            #[trigger] r[j].name_view(),
        ) by {
            if j == r.len() - 1 {
                assert(r[j] == s.last());
                assert(m[i] == x || d.contains(m[i]));
                if m[i] == x {
                    assert(key_lt(x.name_view(), s.last().name_view()));
                } else {
                    let k = choose|k: int| 0 <= k < d.len() && d[k] == m[i];
                    assert(key_le(s[k].name_view(), s[s.len() - 1].name_view()));
                }
            } else {
                assert(r[i] == m[i] && r[j] == m[j]);
            }
        }
        assert forall|i: int| 0 <= i < s.len() + 1 implies #[trigger] r[i] == x || s.contains(r[i]) by {
            if i < s.len() {
                assert(r[i] == m[i]);
                assert(m[i] == x || d.contains(m[i]));
                if m[i] != x {
                    let k = choose|k: int| 0 <= k < d.len() && d[k] == m[i];
                    assert(s[k] == d[k]);
                }
            } else {
                assert(r[i] == s[s.len() - 1]);
            }
        }
    }
}

/// Law: the lists a session keeps are ordered by name.
pub proof fn lemma_sort_by_name_sorted<T: Named>(items: Seq<T>)
    ensures
        sorted_by_name(sort_by_name(items)),
        sort_by_name(items).len() == items.len(),
    decreases items.len(),
{
    if items.len() > 0 {
        lemma_sort_by_name_sorted(items.drop_last());
        lemma_insert_sorted(sort_by_name(items.drop_last()), items.last());
    }
}

/// Law: ordering a list by name keeps every item, as often as it came.
pub proof fn lemma_sort_by_name_permutes<T: Named>(items: Seq<T>)
    ensures
        sort_by_name(items).to_multiset() == items.to_multiset(),
    decreases items.len(),
{
    broadcast use vstd::seq_lib::group_to_multiset_ensures;

    if items.len() > 0 {
        lemma_sort_by_name_permutes(items.drop_last());
        lemma_insert_permutes(sort_by_name(items.drop_last()), items.last());
        assert(items.drop_last().push(items.last()) =~= items);
    }
}

/// Inserting by name adds the item to the multiset of the list.
proof fn lemma_insert_permutes<T: Named>(s: Seq<T>, x: T)
    ensures
        insert_by_name(s, x).to_multiset() == s.to_multiset().insert(x),
    decreases s.len(),
{
    broadcast use vstd::seq_lib::group_to_multiset_ensures;

    if s.len() == 0 || !key_lt(x.name_view(), s.last().name_view()) {
    } else {
        lemma_insert_permutes(s.drop_last(), x);
        assert(s.drop_last().push(s.last()) =~= s);
        assert(s.drop_last().to_multiset().insert(s.last()) == s.to_multiset());
        assert(insert_by_name(s.drop_last(), x).to_multiset().insert(s.last()) =~= s.to_multiset().insert(x));
    }
}

/// Which of its lists a session fetches when it refreshes, from whether the
/// server advertises tools, resources and prompts: exactly the advertised
/// ones.
pub fn lists_to_fetch(tools: bool, resources: bool, prompts: bool) -> (r: (bool, bool, bool))
    ensures
        r == (tools, resources, prompts),
{
    (tools, resources, prompts)
}

/// A list a session keeps after a refresh: what the server gave, ordered by
/// name, or nothing where the list was not fetched.
pub fn refreshed_list<T: Named>(fetched: Option<Vec<T>>) -> (r: Vec<T>)
    ensures
        r@ == match fetched {
            Some(items) => sort_by_name(items@),
            None => Seq::empty(),
        },
{
    match fetched {
        Some(items) => sorted_by_name_vec(items),
        None => Vec::new(),
    }
}

/// The items named `name`, in their order.
pub open spec fn named<T: Named>(items: Seq<T>, name: Seq<char>) -> Seq<T> {
    items.filter(|x: T| x.name_view() == name)
}

/// The items of a name after a push.
proof fn lemma_named_push<T: Named>(s: Seq<T>, x: T, name: Seq<char>)
    ensures
        named(s.push(x), name) == if x.name_view() == name {
            named(s, name).push(x)
        } else {
            named(s, name)
        },
{
    reveal(Seq::filter);
    assert(s.push(x).drop_last() =~= s);
}

/// Inserting by name keeps the items of each name in the order they would
/// have had with the new item last.
proof fn lemma_insert_keeps_named<T: Named>(t: Seq<T>, x: T, name: Seq<char>)
    ensures
        named(insert_by_name(t, x), name) == named(t.push(x), name),
    decreases t.len(),
{
    if t.len() > 0 && key_lt(x.name_view(), t.last().name_view()) {
        let d = t.drop_last();
        let l = t.last();
        assert(d.push(l) =~= t);
        lemma_insert_keeps_named(d, x, name);
        lemma_named_push(insert_by_name(d, x), l, name);
        lemma_named_push(d, x, name);
        lemma_named_push(d, l, name);
        lemma_named_push(t, x, name);
        lemma_key_lt_irrefl(x.name_view());
        if x.name_view() == name && l.name_view() == name {
            assert(key_lt(x.name_view(), x.name_view()));
        }
        assert(named(insert_by_name(t, x), name) =~= named(t.push(x), name));
    }
}

/// Law: ordering by name is stable: the items of any one name keep the order
/// they came in.
pub proof fn lemma_sort_by_name_stable<T: Named>(items: Seq<T>, name: Seq<char>)
    ensures
        named(sort_by_name(items), name) == named(items, name),
    decreases items.len(),
{
    if items.len() > 0 {
        let d = items.drop_last();
        lemma_sort_by_name_stable(d, name);
        lemma_insert_keeps_named(sort_by_name(d), items.last(), name);
        lemma_named_push(sort_by_name(d), items.last(), name);
        lemma_named_push(d, items.last(), name);
        assert(d.push(items.last()) =~= items);
    }
}

/// The position of the first item named `name`, as `iter().find` finds it.
pub fn find_by_name<T: Named>(items: &[T], name: &str) -> (r: Option<usize>)
    ensures
        match r {
            Some(i) => i < items@.len() && items@[i as int].name_view() == name@ && forall|j: int|
                0 <= j < i ==> #[trigger] items@[j].name_view() != name@,
            None => forall|j: int| 0 <= j < items@.len() ==> #[trigger] items@[j].name_view() != name@,
        },
{
    let mut i: usize = 0;
    while i < items.len()
        invariant
            i <= items@.len(),
            forall|j: int| 0 <= j < i ==> #[trigger] items@[j].name_view() != name@,
        decreases items@.len() - i,
    {
        if str_eq(items[i].name_str(), name) {
            return Some(i);
        }
        i = i + 1;
    }
    None
}

/// The notifications that arrived from the server and that the shell has not
/// shown yet, in the order they arrived.
pub struct NotificationQueue {
    pending: Vec<ClientNotification>,
}

impl NotificationQueue {
    /// The notifications waiting, oldest first.
    pub closed spec fn waiting(&self) -> Seq<ClientNotification> {
        self.pending@
    }

    /// An empty queue.
    pub fn new() -> (r: Self)
        ensures
            r.waiting() == Seq::<ClientNotification>::empty(),
    {
        NotificationQueue { pending: Vec::new() }
    }

    /// Adds a notification behind the others.
    pub fn push(&mut self, n: ClientNotification)
        ensures
            final(self).waiting() == old(self).waiting().push(n),
    {
        self.pending.push(n);
    }

    /// Takes every waiting notification, oldest first, and leaves none.
    pub fn drain(&mut self) -> (r: Vec<ClientNotification>)
        ensures
            r@ == old(self).waiting(),
            final(self).waiting() == Seq::<ClientNotification>::empty(),
    {
        let mut taken: Vec<ClientNotification> = Vec::new();
        std::mem::swap(&mut taken, &mut self.pending);
        taken
    }
}

} // verus!
