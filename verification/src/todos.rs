//! The short list of things to do, kept on the notch, newest first. Nothing
//! is kept after it is done: ticking a line off takes it off the list.

use vstd::prelude::*;

use crate::activities::{clipped, MAX_FIELD};
use crate::numbers::{digit_char, digits_in, lemma_digits_in_value, write_digits};
use crate::text::{
    append_chars, chars_eq, chars_of, flatten_exec, string_of, take_chars_exec, trim_exec,
};

verus! {

/// The panel is a glance, not a backlog: the oldest lines drop off the end.
pub const MAX_TODOS: usize = 60;

/// One line of text, at most this many characters.
pub const MAX_TEXT: usize = 200;

pub struct Todo {
    pub id: String,
    pub text: String,
    /// Unix milliseconds.
    pub created_at: u64,
}

pub struct TodoModel {
    pub id: Seq<char>,
    pub text: Seq<char>,
    pub created_at: u64,
}

impl View for Todo {
    type V = TodoModel;

    open spec fn view(&self) -> TodoModel {
        TodoModel { id: self.id@, text: self.text@, created_at: self.created_at }
    }
}

pub open spec fn todos_view(v: Seq<Todo>) -> Seq<TodoModel> {
    v.map_values(|t: Todo| t@)
}

impl Todo {
    pub fn copy(&self) -> (r: Todo)
        ensures
            r@ == self@,
    {
        Todo { id: self.id.clone(), text: self.text.clone(), created_at: self.created_at }
    }
}

/// A line as it is kept: trimmed, on one line, at most `MAX_TEXT`
/// characters.
pub open spec fn todo_text(text: Seq<char>) -> Seq<char> {
    clipped(text)
}

/// The id of the `count`-th line added, created at `created_at`: both in
/// lower-case hexadecimal, joined by `-`. Two lines added in the same
/// millisecond still get ids of their own.
pub open spec fn todo_id(created_at: u64, count: u64) -> Seq<char> {
    digits_in(created_at as nat, 16) + seq!['-'] + digits_in(count as nat, 16)
}

pub fn next_id(created_at: u64, count: u64) -> (r: String)
    ensures
        r@ == todo_id(created_at, count),
{
    let mut out = write_digits(created_at, 16);
    out.push('-');
    let tail = write_digits(count, 16);
    append_chars(&mut out, tail.as_slice());
    string_of(out.as_slice())
}

/// At most `MAX_TODOS` lines: the first ones.
pub open spec fn capped(v: Seq<TodoModel>) -> Seq<TodoModel> {
    if v.len() <= MAX_TODOS {
        v
    } else {
        v.subrange(0, MAX_TODOS as int)
    }
}

/// The lines other than those with this id, in order.
pub open spec fn without_id(v: Seq<TodoModel>, id: Seq<char>) -> Seq<TodoModel>
    decreases v.len(),
{
    if v.len() == 0 {
        Seq::empty()
    } else if v.last().id == id {
        without_id(v.drop_last(), id)
    } else {
        without_id(v.drop_last(), id).push(v.last())
    }
}

fn same_todo(a: &Todo, b: &Todo) -> (r: bool)
    ensures
        r == (a@ == b@),
{
    chars_eq(chars_of(a.id.as_str()).as_slice(), chars_of(b.id.as_str()).as_slice()) && chars_eq(
        chars_of(a.text.as_str()).as_slice(),
        chars_of(b.text.as_str()).as_slice(),
    ) && a.created_at == b.created_at
}

fn same_todos(a: &Vec<Todo>, b: &Vec<Todo>) -> (r: bool)
    ensures
        r == (todos_view(a@) == todos_view(b@)),
{
    if a.len() != b.len() {
        assert(todos_view(a@).len() != todos_view(b@).len());
        return false;
    }
    let mut i: usize = 0;
    while i < a.len()
        invariant
            a.len() == b.len(),
            i <= a.len(),
            forall|k: int| 0 <= k < i ==> a@[k]@ == b@[k]@,
        decreases a.len() - i,
    {
        if !same_todo(&a[i], &b[i]) {
            assert(todos_view(a@)[i as int] != todos_view(b@)[i as int]);
            return false;
        }
        i = i + 1;
    }
    assert(todos_view(a@) =~= todos_view(b@));
    true
}

fn copy_todos(v: &Vec<Todo>) -> (r: Vec<Todo>)
    ensures
        todos_view(r@) == todos_view(v@),
{
    let mut out: Vec<Todo> = Vec::new();
    let mut i: usize = 0;
    while i < v.len()
        invariant
            i <= v.len(),
            out@.len() == i,
            forall|k: int| 0 <= k < i ==> out@[k]@ == v@[k]@,
        decreases v.len() - i,
    {
        out.push(v[i].copy());
        i = i + 1;
    }
    assert(todos_view(out@) =~= todos_view(v@));
    out
}

/// The list, and how many lines have been added since start-up.
pub struct TodoHub {
    todos: Vec<Todo>,
    count: u64,
}

impl View for TodoHub {
    type V = Seq<TodoModel>;

    closed spec fn view(&self) -> Seq<TodoModel> {
        todos_view(self.todos@)
    }
}

impl TodoHub {
    /// How many lines have been added (wrapping at `u64::MAX`).
    pub closed spec fn added(&self) -> u64 {
        self.count
    }

    /// Starts with the saved list, as it was read.
    pub fn new(saved: Vec<Todo>) -> (r: Self)
        ensures
            r@ == todos_view(saved@),
            r.added() == 0,
    {
        TodoHub { todos: saved, count: 0 }
    }

    /// The list as the webview sees it, newest first.
    pub fn current(&self) -> (r: Vec<Todo>)
        ensures
            todos_view(r@) == self@,
    {
        copy_todos(&self.todos)
    }

    /// Adds a line at the top, created at `created_at`. Text that is empty
    /// once trimmed adds nothing. Returns whether the list changed, which is
    /// when it is saved and shown.
    pub fn add(&mut self, text: &str, created_at: u64) -> (changed: bool)
        ensures
            todo_text(text@).len() == 0 ==> final(self)@ == old(self)@ && !changed
                && final(self).added() == old(self).added(),
            todo_text(text@).len() > 0 ==> {
                &&& final(self).added() == (if old(self).added() == u64::MAX {
                    0
                } else {
                    old(self).added() + 1
                })
                &&& final(self)@ == capped(
                    seq![
                        TodoModel {
                            id: todo_id(created_at, old(self).added()),
                            text: todo_text(text@),
                            created_at,
                        },
                    ] + old(self)@,
                )
                &&& changed == (final(self)@ != old(self)@)
            },
    {
        let t = trim_exec(chars_of(text).as_slice());
        let f = flatten_exec(t.as_slice());
        let clean = take_chars_exec(f.as_slice(), MAX_TEXT);
        if clean.len() == 0 {
            return false;
        }
        let id = next_id(created_at, self.count);
        self.count = self.count.wrapping_add(1);
        let before = copy_todos(&self.todos);
        let ghost old_view = todos_view(self.todos@);
        self.todos.insert(0, Todo { id, text: string_of(clean.as_slice()), created_at });
        let ghost full = self.todos@;
        self.todos.truncate(MAX_TODOS);
        proof {
            assert(todos_view(full) =~= seq![
                TodoModel { id: todo_id(created_at, old(self).added()), text: todo_text(text@), created_at },
            ] + old_view);
            if full.len() > MAX_TODOS {
                assert(todos_view(self.todos@) =~= todos_view(full).subrange(0, MAX_TODOS as int));
            }
        }
        !same_todos(&self.todos, &before)
    }

    /// Takes every line with this id off the list. Returns whether the list
    /// changed.
    pub fn remove(&mut self, id: &str) -> (changed: bool)
        ensures
            final(self)@ == capped(without_id(old(self)@, id@)),
            final(self).added() == old(self).added(),
            changed == (final(self)@ != old(self)@),
    {
        let before = copy_todos(&self.todos);
        let want = chars_of(id);
        let mut taken: Vec<Todo> = Vec::new();
        std::mem::swap(&mut taken, &mut self.todos);
        let ghost all = todos_view(taken@);
        let mut kept: Vec<Todo> = Vec::new();
        let mut i: usize = 0;
        assert(all.take(0) =~= Seq::<TodoModel>::empty());
        assert(all.len() == taken.len());
        while taken.len() > 0
            invariant
                all.len() <= usize::MAX,
                i + taken@.len() == all.len(),
                todos_view(taken@) == all.subrange(i as int, all.len() as int),
                todos_view(kept@) == without_id(all.take(i as int), id@),
                want@ == id@,
            decreases taken@.len(),
        {
            let ghost t0 = taken@[0];
            let ghost old_taken = taken@;
            assert(todos_view(taken@)[0] == t0@);
            let t = taken.remove(0);
            assert(taken@ =~= old_taken.drop_first());
            assert(todos_view(taken@) =~= todos_view(old_taken).drop_first());
            assert(all.take(i + 1).drop_last() =~= all.take(i as int));
            assert(all.take(i + 1).last() == t@);
            let ghost k0 = todos_view(kept@);
            if !chars_eq(chars_of(t.id.as_str()).as_slice(), want.as_slice()) {
                kept.push(t);
                assert(todos_view(kept@) =~= k0.push(t@));
            }
            i = i + 1;
            assert(todos_view(taken@) =~= all.subrange(i as int, all.len() as int));
        }
        assert(all.take(i as int) =~= all);
        let ghost full = kept@;
        kept.truncate(MAX_TODOS);
        proof {
            if full.len() > MAX_TODOS {
                assert(todos_view(kept@) =~= todos_view(full).subrange(0, MAX_TODOS as int));
            }
        }
        self.todos = kept;
        !same_todos(&self.todos, &before)
    }
}

proof fn lemma_without_id_gone(v: Seq<TodoModel>, id: Seq<char>)
    ensures
        forall|i: int| 0 <= i < without_id(v, id).len() ==> (#[trigger] without_id(v, id)[i]).id != id,
        without_id(v, id).len() <= v.len(),
    decreases v.len(),
{
    if v.len() > 0 {
        lemma_without_id_gone(v.drop_last(), id);
    }
}

proof fn lemma_hex_has_no_dash(n: nat)
    ensures
        forall|i: int| 0 <= i < digits_in(n, 16).len() ==> #[trigger] digits_in(n, 16)[i] != '-',
    decreases n,
{
    if n >= 16 {
        lemma_hex_has_no_dash(n / 16);
        assert(digits_in(n, 16) == digits_in(n / 16, 16).push(digit_char(n % 16)));
    } else {
        assert(n % 16 == n);
    }
}

/// Ids are unique for the life of the list: each add counts one further,
/// and lines with different counts get different ids, whenever they were
/// added (in the same millisecond or not).
pub proof fn lemma_todo_ids_unique(t1: u64, a: u64, t2: u64, b: u64)
    requires
        a != b,
    ensures
        todo_id(t1, a) != todo_id(t2, b),
{
    let h1 = digits_in(t1 as nat, 16);
    let h2 = digits_in(t2 as nat, 16);
    let ia = todo_id(t1, a);
    let ib = todo_id(t2, b);
    lemma_hex_has_no_dash(t1 as nat);
    lemma_hex_has_no_dash(t2 as nat);
    if ia == ib {
        if h1.len() < h2.len() {
            assert(ia[h1.len() as int] == '-');
            assert(ib[h1.len() as int] == h2[h1.len() as int]);
        } else if h2.len() < h1.len() {
            assert(ib[h2.len() as int] == '-');
            assert(ia[h2.len() as int] == h1[h2.len() as int]);
        } else {
            assert(ia.subrange(h1.len() as int + 1, ia.len() as int) =~= digits_in(a as nat, 16));
            assert(ib.subrange(h2.len() as int + 1, ib.len() as int) =~= digits_in(b as nat, 16));
            lemma_digits_in_value(a as nat, 16);
            lemma_digits_in_value(b as nat, 16);
        }
    }
}

/// The hub's count after `n` lines were added to a count of `start`: one
/// further each time, wrapping after `u64::MAX` (`TodoHub::add`).
pub open spec fn count_after(start: u64, n: nat) -> u64
    decreases n,
{
    if n == 0 {
        start
    } else {
        let c = count_after(start, (n - 1) as nat);
        if c == u64::MAX {
            0
        } else {
            (c + 1) as u64
        }
    }
}

proof fn lemma_count_after(start: u64, n: nat)
    ensures
        count_after(start, n) as int == (start as int + n) % 0x1_0000_0000_0000_0000,
    decreases n,
{
    if n > 0 {
        lemma_count_after(start, (n - 1) as nat);
        let m: int = 0x1_0000_0000_0000_0000;
        let c = count_after(start, (n - 1) as nat) as int;
        let x = start as int + n - 1;
        assert(c == x % m);
        assert((x % m + 1) % m == (x + 1) % m) by (nonlinear_arith)
            requires
                m > 0,
                x >= 0,
        ;
        if c == u64::MAX {
            assert((c + 1) % m == 0);
        } else {
            assert((c + 1) % m == c + 1);
        }
    }
}

/// Two lines that one hub added, the `i`-th and the `j`-th since its count
/// was `start` (0 for a new hub), get different ids, whenever each was
/// added, as long as fewer than 2^64 lines were added between them.
pub proof fn lemma_hub_ids_unique(start: u64, i: nat, j: nat, t1: u64, t2: u64)
    requires
        i < j,
        j - i < 0x1_0000_0000_0000_0000,
    ensures
        todo_id(t1, count_after(start, i)) != todo_id(t2, count_after(start, j)),
{
    lemma_count_after(start, i);
    lemma_count_after(start, j);
    let m: int = 0x1_0000_0000_0000_0000;
    let a = start as int + i;
    let b = start as int + j;
    assert(a % m != b % m) by (nonlinear_arith)
        requires
            m > 0,
            0 <= a < b,
            b - a < m,
    ;
    lemma_todo_ids_unique(t1, count_after(start, i), t2, count_after(start, j));
}

/// After any change the list holds at most `MAX_TODOS` lines, and a line
/// that was ticked off is gone: no line has its id any more.
pub proof fn lemma_todo_list_laws(v: Seq<TodoModel>, id: Seq<char>, added: TodoModel)
    ensures
        capped(v).len() <= MAX_TODOS,
        capped(seq![added] + v).len() <= MAX_TODOS,
        capped(seq![added] + v)[0] == added,
        forall|i: int|
            0 <= i < capped(without_id(v, id)).len() ==> (#[trigger] capped(without_id(v, id))[i]).id
                != id,
{
    lemma_without_id_gone(v, id);
    let w = without_id(v, id);
    assert forall|i: int| 0 <= i < capped(w).len() implies (#[trigger] capped(w)[i]).id != id by {
        assert(capped(w)[i] == w[i]);
    }
}

// ---------------------------------------------------------------------------
// Any run of changes.

/// A change to the list, as the hub makes it: a line added at the top (one
/// whose text is not empty once trimmed), or every line with an id ticked
/// off.
pub enum TodoChange {
    Add(TodoModel),
    Remove(Seq<char>),
}

/// What one change makes of the list (`TodoHub::add` and `TodoHub::remove`).
pub open spec fn apply_change(v: Seq<TodoModel>, c: TodoChange) -> Seq<TodoModel> {
    match c {
        TodoChange::Add(t) => capped(seq![t] + v),
        TodoChange::Remove(id) => capped(without_id(v, id)),
    }
}

/// The list after these changes, made in order.
pub open spec fn after_changes(v: Seq<TodoModel>, cs: Seq<TodoChange>) -> Seq<TodoModel>
    decreases cs.len(),
{
    if cs.len() == 0 {
        v
    } else {
        apply_change(after_changes(v, cs.drop_last()), cs.last())
    }
}

/// A line with where it came from: the index of the change that added it,
/// or -1 for a line that was there at the start.
pub type Tagged = (int, TodoModel);

pub open spec fn tagged_capped(s: Seq<Tagged>) -> Seq<Tagged> {
    if s.len() <= MAX_TODOS {
        s
    } else {
        s.subrange(0, MAX_TODOS as int)
    }
}

pub open spec fn tagged_without(s: Seq<Tagged>, id: Seq<char>) -> Seq<Tagged>
    decreases s.len(),
{
    if s.len() == 0 {
        Seq::empty()
    } else if s.last().1.id == id {
        tagged_without(s.drop_last(), id)
    } else {
        tagged_without(s.drop_last(), id).push(s.last())
    }
}

/// The same changes, each line carrying its origin.
pub open spec fn tagged_after(v: Seq<TodoModel>, cs: Seq<TodoChange>) -> Seq<Tagged>
    decreases cs.len(),
{
    if cs.len() == 0 {
        v.map_values(|t: TodoModel| (-1int, t))
    } else {
        let before = tagged_after(v, cs.drop_last());
        match cs.last() {
            TodoChange::Add(t) => tagged_capped(seq![((cs.len() - 1) as int, t)] + before),
            TodoChange::Remove(id) => tagged_capped(tagged_without(before, id)),
        }
    }
}

pub open spec fn untagged(s: Seq<Tagged>) -> Seq<TodoModel> {
    s.map_values(|p: Tagged| p.1)
}

/// Lines added later come first; every tag names the change that added it.
pub open spec fn newest_first(s: Seq<Tagged>, cs: Seq<TodoChange>) -> bool {
    &&& forall|i: int, j: int|
        0 <= i < j < s.len() && s[i].0 >= 0 && s[j].0 >= 0 ==> #[trigger] s[i].0 > #[trigger] s[j].0
    &&& forall|i: int|
        0 <= i < s.len() && s[i].0 >= 0 ==> #[trigger] s[i].0 < cs.len() && cs[s[i].0] == TodoChange::Add(
            s[i].1,
        )
    &&& forall|i: int| 0 <= i < s.len() ==> #[trigger] s[i].0 >= -1
}

proof fn lemma_tagged_without(s: Seq<Tagged>, id: Seq<char>)
    ensures
        untagged(tagged_without(s, id)) == without_id(untagged(s), id),
        forall|i: int|
            0 <= i < tagged_without(s, id).len() ==> exists|k: int|
                0 <= k < s.len() && #[trigger] tagged_without(s, id)[i] == #[trigger] s[k],
        forall|i: int, j: int|
            #![trigger tagged_without(s, id)[i], tagged_without(s, id)[j]]
            0 <= i < j < tagged_without(s, id).len() ==> exists|a: int, b: int|
                0 <= a < b < s.len() && tagged_without(s, id)[i] == #[trigger] s[a]
                    && tagged_without(s, id)[j] == #[trigger] s[b],
    decreases s.len(),
{
    if s.len() > 0 {
        let rest = s.drop_last();
        lemma_tagged_without(rest, id);
        assert(untagged(rest) =~= untagged(s).drop_last());
        let r = tagged_without(s, id);
        let rr = tagged_without(rest, id);
        assert forall|i: int| 0 <= i < rr.len() implies exists|k: int|
            0 <= k < s.len() && #[trigger] rr[i] == #[trigger] s[k] by {
            let k = choose|k: int| 0 <= k < rest.len() && #[trigger] rr[i] == #[trigger] rest[k];
            assert(rr[i] == s[k]);
        }
        assert forall|i: int, j: int| 0 <= i < j < rr.len() implies exists|a: int, b: int|
            0 <= a < b < s.len() && #[trigger] rr[i] == #[trigger] s[a] && #[trigger] rr[j] == #[trigger] s[b] by {
            let (a, b) = choose|a: int, b: int|
                0 <= a < b < rest.len() && rr[i] == #[trigger] rest[a] && rr[j] == #[trigger] rest[b];
            assert(rr[i] == s[a] && rr[j] == s[b]);
        }
        if s.last().1.id != id {
            assert(r == rr.push(s.last()));
            assert(untagged(r) =~= untagged(rr).push(s.last().1));
            assert forall|i: int| 0 <= i < r.len() implies exists|k: int|
                0 <= k < s.len() && #[trigger] r[i] == #[trigger] s[k] by {
                if i < rr.len() {
                    assert(r[i] == rr[i]);
                    let k = choose|k: int| 0 <= k < s.len() && #[trigger] rr[i] == #[trigger] s[k];
                    assert(r[i] == s[k]);
                } else {
                    assert(r[i] == s[s.len() - 1]);
                }
            }
            assert forall|i: int, j: int| 0 <= i < j < r.len() implies exists|a: int, b: int|
                0 <= a < b < s.len() && #[trigger] r[i] == #[trigger] s[a] && #[trigger] r[j] == #[trigger] s[b] by {
                assert(r[i] == rr[i]);
                if j < rr.len() {
                    assert(r[j] == rr[j]);
                    let (a, b) = choose|a: int, b: int|
                        0 <= a < b < s.len() && #[trigger] rr[i] == #[trigger] s[a] && #[trigger] rr[j] == #[trigger] s[b];
                    assert(r[i] == s[a] && r[j] == s[b]);
                } else {
                    let a = choose|k: int| 0 <= k < rest.len() && #[trigger] rr[i] == #[trigger] rest[k];
                    assert(r[i] == s[a] && r[j] == s[s.len() - 1]);
                }
            }
        } else {
            assert(r == rr);
        }
    } else {
        assert(untagged(tagged_without(s, id)) =~= Seq::<TodoModel>::empty());
    }
}

proof fn lemma_tagged_after(v: Seq<TodoModel>, cs: Seq<TodoChange>)
    ensures
        untagged(tagged_after(v, cs)) == after_changes(v, cs),
        newest_first(tagged_after(v, cs), cs),
    decreases cs.len(),
{
    let t = tagged_after(v, cs);
    if cs.len() == 0 {
        assert(untagged(t) =~= v);
    } else {
        let pre = cs.drop_last();
        lemma_tagged_after(v, pre);
        let before = tagged_after(v, pre);
        let n = (cs.len() - 1) as int;
        assert forall|i: int| 0 <= i < before.len() && before[i].0 >= 0 implies #[trigger] cs[before[i].0]
            == TodoChange::Add(before[i].1) && before[i].0 < n by {
            assert(pre[before[i].0] == cs[before[i].0]);
        }
        match cs.last() {
            TodoChange::Add(x) => {
                let full = seq![(n, x)] + before;
                assert(untagged(full) =~= seq![x] + untagged(before));
                if full.len() > MAX_TODOS {
                    assert(untagged(t) =~= untagged(full).subrange(0, MAX_TODOS as int));
                }
                assert forall|i: int, j: int|
                    0 <= i < j < full.len() && full[i].0 >= 0 && full[j].0 >= 0 implies #[trigger] full[i].0
                    > #[trigger] full[j].0 by {
                    if i == 0 {
                        assert(full[j] == before[j - 1]);
                    } else {
                        assert(full[i] == before[i - 1] && full[j] == before[j - 1]);
                    }
                }
                assert forall|i: int| 0 <= i < full.len() && full[i].0 >= 0 implies #[trigger] full[i].0
                    < cs.len() && cs[full[i].0] == TodoChange::Add(full[i].1) by {
                    if i > 0 {
                        assert(full[i] == before[i - 1]);
                    }
                }
                assert forall|i: int| 0 <= i < full.len() implies #[trigger] full[i].0 >= -1 by {
                    if i > 0 {
                        assert(full[i] == before[i - 1]);
                    }
                }
                assert(newest_first(full, cs));
            },
            TodoChange::Remove(id) => {
                lemma_tagged_without(before, id);
                let w = tagged_without(before, id);
                if w.len() > MAX_TODOS {
                    assert(untagged(t) =~= untagged(w).subrange(0, MAX_TODOS as int));
                }
                assert forall|i: int, j: int|
                    0 <= i < j < w.len() && w[i].0 >= 0 && w[j].0 >= 0 implies #[trigger] w[i].0
                    > #[trigger] w[j].0 by {
                    let (a, b) = choose|a: int, b: int|
                        0 <= a < b < before.len() && #[trigger] w[i] == before[a] && #[trigger] w[j]
                            == before[b];
                }
                assert forall|i: int| 0 <= i < w.len() && w[i].0 >= 0 implies #[trigger] w[i].0
                    < cs.len() && cs[w[i].0] == TodoChange::Add(w[i].1) by {
                    let k = choose|k: int| 0 <= k < before.len() && #[trigger] w[i] == before[k];
                }
                assert forall|i: int| 0 <= i < w.len() implies #[trigger] w[i].0 >= -1 by {
                    let k = choose|k: int| 0 <= k < before.len() && #[trigger] w[i] == before[k];
                }
                assert(newest_first(w, cs));
            },
        }
    }
}

/// Whatever lines the list started with and whatever changes were made,
/// the list never holds more than `MAX_TODOS` lines after a change (nor
/// before, when it started with no more), and of two lines that were added
/// and are still there, the one added later comes first.
pub proof fn lemma_changes_keep_newest_first(v: Seq<TodoModel>, cs: Seq<TodoChange>)
    ensures
        cs.len() > 0 || v.len() <= MAX_TODOS ==> after_changes(v, cs).len() <= MAX_TODOS,
        untagged(tagged_after(v, cs)) == after_changes(v, cs),
        newest_first(tagged_after(v, cs), cs),
{
    lemma_tagged_after(v, cs);
}

} // verus!
