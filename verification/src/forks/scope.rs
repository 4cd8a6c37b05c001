//! A `task` call as a scope: the turn's calls sorted into local tools,
//! refusals and at most one scope; each child's context, cut from the
//! parent's turn; and the one result the parent is resumed with, or the
//! outcome that keeps it suspended.
use vstd::prelude::*;
use crate::forks::agent::{blocks, outcome_short, Outcome};
use crate::forks::framing::{Cut, scope_result, scope_result_text, triples_view};
use crate::forks::wire::{
    calls_view, copy_messages, messages_view, Message, MessageView, ToolCall, ToolCallView,
};
use crate::json::text_field;
use crate::text::{cat, cat3, owned, views};

verus! {

/// A local tool call and the path it names.
pub enum Local {
    ListDir(String),
    ReadFile(String),
}

/// What to do with each call of one assistant turn.
pub struct TurnPlan {
    pub locals: Vec<(usize, Local)>,
    pub refusals: Vec<(usize, String)>,
    pub scope_at: Option<usize>,
}

/// How one call is answered.
pub enum Slot {
    ListDir(Seq<char>),
    ReadFile(Seq<char>),
    Scope,
    Refused(Seq<char>),
}

/// The `path` argument of a local tool call, or empty.
pub open spec fn path_argument(arguments: Seq<char>) -> Seq<char> {
    match text_field(arguments, "path"@) {
        Some(p) => p,
        None => Seq::empty(),
    }
}

/// How call `i` is answered, given whether a scope was already opened by an
/// earlier call of the turn.
pub open spec fn slot_of(call: ToolCallView, scope_taken: bool) -> Slot {
    if call.name == "list_dir"@ {
        Slot::ListDir(path_argument(call.arguments))
    } else if call.name == "read_file"@ {
        Slot::ReadFile(path_argument(call.arguments))
    } else if call.name == "task"@ {
        if scope_taken {
            Slot::Refused("Error: only one `task` call per turn. This one did not run."@)
        } else {
            Slot::Scope
        }
    } else {
        Slot::Refused("Error: there is no tool called `"@ + call.name + "`."@)
    }
}

/// The first `task` call of the turn, if any.
pub open spec fn first_task(calls: Seq<ToolCallView>, n: nat) -> Option<int>
    decreases n,
{
    if n == 0 {
        None
    } else {
        match first_task(calls, (n - 1) as nat) {
            Some(i) => Some(i),
            None => if calls[n - 1].name == "task"@ {
                Some(n - 1)
            } else {
                None
            },
        }
    }
}

/// How every call of the turn is answered.
pub open spec fn slots(calls: Seq<ToolCallView>) -> Seq<Slot> {
    Seq::new(calls.len(), |i: int| slot_of(calls[i], first_task(calls, i as nat) is Some))
}

pub open spec fn local_slot(l: Local) -> Slot {
    match l {
        Local::ListDir(p) => Slot::ListDir(p@),
        Local::ReadFile(p) => Slot::ReadFile(p@),
    }
}

pub open spec fn scope_is(plan: TurnPlan, i: int) -> bool {
    plan.scope_at matches Some(x) && x as int == i
}

/// The plan answers call `i` the way `s` says, and in exactly one list.
pub open spec fn planned(plan: TurnPlan, i: int, s: Slot) -> bool {
    match s {
        Slot::Scope => scope_is(plan, i),
        Slot::Refused(why) => exists|k: int| 0 <= k < plan.refusals@.len()
            && #[trigger] plan.refusals@[k].0 == i && plan.refusals@[k].1@ == why,
        _ => exists|k: int| 0 <= k < plan.locals@.len() && #[trigger] plan.locals@[k].0 == i
            && local_slot(plan.locals@[k].1) == s,
    }
}

pub open spec fn plan_matches(plan: TurnPlan, calls: Seq<ToolCallView>) -> bool {
    let s = slots(calls);
    &&& forall|i: int| 0 <= i < calls.len() ==> planned(plan, i, #[trigger] s[i])
    &&& forall|k: int| 0 <= k < plan.locals@.len() ==> 0 <= #[trigger] plan.locals@[k].0 < calls.len()
        && s[plan.locals@[k].0 as int] == local_slot(plan.locals@[k].1)
    &&& forall|k: int| 0 <= k < plan.refusals@.len() ==> 0 <= #[trigger] plan.refusals@[k].0 < calls.len()
        && s[plan.refusals@[k].0 as int] == Slot::Refused(plan.refusals@[k].1@)
    &&& forall|k: int, m: int| 0 <= k < m < plan.locals@.len() ==> plan.locals@[k].0 < plan.locals@[m].0
    &&& forall|k: int, m: int| 0 <= k < m < plan.refusals@.len() ==> plan.refusals@[k].0 < plan.refusals@[m].0
    &&& match plan.scope_at {
        Some(x) => first_task(calls, calls.len()) == Some(x as int),
        None => first_task(calls, calls.len()) is None,
    }
    &&& forall|k: int| 0 <= k < plan.locals@.len() ==> Some(plan.locals@[k].0 as int) != first_task(calls, calls.len())
    &&& forall|k: int| 0 <= k < plan.refusals@.len() ==> Some(plan.refusals@[k].0 as int) != first_task(calls, calls.len())
}

proof fn lemma_first_task_grows(calls: Seq<ToolCallView>, n: nat, m: nat)
    requires
        n <= m <= calls.len(),
        first_task(calls, n) is Some,
    ensures
        first_task(calls, m) == first_task(calls, n),
    decreases m - n,
{
    if m > n {
        lemma_first_task_grows(calls, n, (m - 1) as nat);
    }
}

proof fn lemma_first_task_is_task(calls: Seq<ToolCallView>, n: nat)
    requires
        n <= calls.len(),
    ensures
        first_task(calls, n) matches Some(i) ==> 0 <= i < n && calls[i].name == "task"@
            && first_task(calls, (i + 1) as nat) == Some(i) && first_task(calls, i as nat) is None,
    decreases n,
{
    if n > 0 {
        lemma_first_task_is_task(calls, (n - 1) as nat);
    }
}

/// Sorts one turn's calls: the local tools, the refusals, and the first
/// `task` call as the turn's one scope.
pub fn plan_turn(calls: &Vec<ToolCall>) -> (r: TurnPlan)
    ensures
        plan_matches(r, calls_view(calls@)),
{
    proof {
        reveal_strlit("list_dir");
        reveal_strlit("read_file");
        reveal_strlit("task");
        assert("list_dir"@.len() == 8 && "read_file"@.len() == 9 && "task"@.len() == 4);
    }
    let ghost cv = calls_view(calls@);
    let mut plan = TurnPlan { locals: Vec::new(), refusals: Vec::new(), scope_at: None };
    let mut i: usize = 0;
    while i < calls.len()
        invariant
            cv == calls_view(calls@),
            "list_dir"@.len() == 8 && "read_file"@.len() == 9 && "task"@.len() == 4,
            i <= calls@.len(),
            forall|j: int| 0 <= j < i ==> planned(plan, j, #[trigger] slots(cv)[j]),
            forall|k: int| 0 <= k < plan.locals@.len() ==> 0 <= #[trigger] plan.locals@[k].0 < i
                && slots(cv)[plan.locals@[k].0 as int] == local_slot(plan.locals@[k].1),
            forall|k: int| 0 <= k < plan.refusals@.len() ==> 0 <= #[trigger] plan.refusals@[k].0 < i
                && slots(cv)[plan.refusals@[k].0 as int] == Slot::Refused(plan.refusals@[k].1@),
            forall|k: int, m: int| 0 <= k < m < plan.locals@.len() ==> plan.locals@[k].0 < plan.locals@[m].0,
            forall|k: int, m: int| 0 <= k < m < plan.refusals@.len() ==> plan.refusals@[k].0 < plan.refusals@[m].0,
            match plan.scope_at {
                Some(x) => first_task(cv, i as nat) == Some(x as int),
                None => first_task(cv, i as nat) is None,
            },
            forall|k: int| 0 <= k < plan.locals@.len() ==> Some(plan.locals@[k].0 as int) != first_task(cv, i as nat),
            forall|k: int| 0 <= k < plan.refusals@.len() ==> Some(plan.refusals@[k].0 as int) != first_task(cv, i as nat),
        decreases calls@.len() - i,
    {
        let ghost before = plan;
        let call = &calls[i];
        let name = call.function.name.as_str();
        assert(cv[i as int] == call@);
        let taken = plan.scope_at.is_some();
        assert(slots(cv)[i as int] == slot_of(cv[i as int], taken));
        if crate::text::same(name, "list_dir") {
            let target = match crate::json::text_member(call.function.arguments.as_str(), "path") {
                Some(p) => p,
                None => String::new(),
            };
            plan.locals.push((i, Local::ListDir(target)));
            assert(plan.locals@[plan.locals@.len() - 1].0 == i);
        } else if crate::text::same(name, "read_file") {
            let target = match crate::json::text_member(call.function.arguments.as_str(), "path") {
                Some(p) => p,
                None => String::new(),
            };
            plan.locals.push((i, Local::ReadFile(target)));
            assert(plan.locals@[plan.locals@.len() - 1].0 == i);
        } else if crate::text::same(name, "task") {
            if taken {
                plan.refusals.push((i, owned("Error: only one `task` call per turn. This one did not run.")));
                assert(plan.refusals@[plan.refusals@.len() - 1].0 == i);
            } else {
                plan.scope_at = Some(i);
            }
        } else {
            plan.refusals.push((i, cat3("Error: there is no tool called `", name, "`.")));
            assert(plan.refusals@[plan.refusals@.len() - 1].0 == i);
        }
        proof {
            lemma_first_task_is_task(cv, (i + 1) as nat);
            lemma_first_task_is_task(cv, i as nat);
            if first_task(cv, i as nat) is Some {
                lemma_first_task_grows(cv, i as nat, (i + 1) as nat);
            }
            assert forall|j: int| 0 <= j < i + 1 implies planned(plan, j, #[trigger] slots(cv)[j]) by {
                if j < i {
                    assert(planned(before, j, slots(cv)[j]));
                    match slots(cv)[j] {
                        Slot::Refused(why) => {
                            let k = choose|k: int| 0 <= k < before.refusals@.len()
                                && #[trigger] before.refusals@[k].0 == j && before.refusals@[k].1@ == why;
                            assert(plan.refusals@[k] == before.refusals@[k]);
                        },
                        Slot::Scope => {
                        },
                        _ => {
                            let k = choose|k: int| 0 <= k < before.locals@.len()
                                && #[trigger] before.locals@[k].0 == j && local_slot(before.locals@[k].1) == slots(cv)[j];
                            assert(plan.locals@[k] == before.locals@[k]);
                        },
                    }
                }
            }
        }
        i = i + 1;
    }
    plan
}

pub open spec fn in_locals(plan: TurnPlan, i: int) -> bool {
    exists|k: int| 0 <= k < plan.locals@.len() && #[trigger] plan.locals@[k].0 == i
}

pub open spec fn in_refusals(plan: TurnPlan, i: int) -> bool {
    exists|k: int| 0 <= k < plan.refusals@.len() && #[trigger] plan.refusals@[k].0 == i
}

pub open spec fn exactly_one(a: bool, b: bool, c: bool) -> bool {
    (a && !b && !c) || (!a && b && !c) || (!a && !b && c)
}

proof fn lemma_scope_slot(calls: Seq<ToolCallView>, i: int)
    requires
        0 <= i < calls.len(),
    ensures
        (slots(calls)[i] is Scope) <==> first_task(calls, calls.len()) == Some(i),
{
    reveal_strlit("list_dir");
    reveal_strlit("read_file");
    reveal_strlit("task");
    assert("list_dir"@.len() == 8 && "read_file"@.len() == 9 && "task"@.len() == 4);
    lemma_first_task_is_task(calls, calls.len());
    lemma_first_task_is_task(calls, i as nat);
    lemma_first_task_is_task(calls, (i + 1) as nat);
    if slots(calls)[i] is Scope {
        assert(first_task(calls, (i + 1) as nat) == Some(i));
        lemma_first_task_grows(calls, (i + 1) as nat, calls.len());
    }
    if first_task(calls, calls.len()) == Some(i) {
        assert(first_task(calls, i as nat) is None);
    }
}

/// Every call of a turn is answered exactly once: as a local tool, as a
/// refusal, or as the turn's one scope; a local or a refusal appears once in
/// its list.
pub proof fn lemma_each_call_answered_once(plan: TurnPlan, calls: Seq<ToolCallView>)
    requires
        plan_matches(plan, calls),
    ensures
        forall|i: int| 0 <= i < calls.len() ==> exactly_one(
            #[trigger] in_locals(plan, i),
            in_refusals(plan, i),
            scope_is(plan, i),
        ),
        forall|k: int, m: int| 0 <= k < plan.locals@.len() && 0 <= m < plan.locals@.len() && k != m
            ==> plan.locals@[k].0 != plan.locals@[m].0,
        forall|k: int, m: int| 0 <= k < plan.refusals@.len() && 0 <= m < plan.refusals@.len() && k != m
            ==> plan.refusals@[k].0 != plan.refusals@[m].0,
{
    let s = slots(calls);
    assert forall|i: int| 0 <= i < calls.len() implies exactly_one(
        #[trigger] in_locals(plan, i),
        in_refusals(plan, i),
        scope_is(plan, i),
    ) by {
        lemma_scope_slot(calls, i);
        assert(planned(plan, i, s[i]));
        if in_locals(plan, i) {
            let k = choose|k: int| 0 <= k < plan.locals@.len() && #[trigger] plan.locals@[k].0 == i;
            assert(s[i] == local_slot(plan.locals@[k].1));
        }
        if in_refusals(plan, i) {
            let k = choose|k: int| 0 <= k < plan.refusals@.len() && #[trigger] plan.refusals@[k].0 == i;
            assert(s[i] == Slot::Refused(plan.refusals@[k].1@));
        }
        if scope_is(plan, i) {
            assert(first_task(calls, calls.len()) == Some(i));
        }
    }
    assert forall|k: int, m: int| 0 <= k < plan.locals@.len() && 0 <= m < plan.locals@.len() && k != m
        implies plan.locals@[k].0 != plan.locals@[m].0 by {
        if k < m {
        } else {
        }
    }
    assert forall|k: int, m: int| 0 <= k < plan.refusals@.len() && 0 <= m < plan.refusals@.len() && k != m
        implies plan.refusals@[k].0 != plan.refusals@[m].0 by {
        if k < m {
        } else {
        }
    }
}

/// The parent's turn, frozen at the moment it called `task`.
pub struct ParentTurn {
    pub messages: Vec<Message>,
    pub calls: Vec<ToolCall>,
    pub call_index: usize,
    pub results: Vec<Option<Message>>,
}

pub open spec fn results_view(v: Seq<Option<Message>>) -> Seq<Option<MessageView>> {
    v.map_values(|o: Option<Message>| match o {
        Some(m) => Some(m@),
        None => None,
    })
}

/// What `child_context` needs of a turn: the messages through the assistant
/// turn that called `task`, the scope's own call among that turn's calls,
/// and every other call answered.
pub open spec fn turn_ready(turn: ParentTurn) -> bool {
    &&& turn.messages@.len() > 0
    &&& turn.call_index < turn.calls@.len()
    &&& turn.results@.len() == turn.calls@.len()
    &&& forall|i: int| 0 <= i < turn.results@.len() && i != turn.call_index ==> (#[trigger] turn.results@[i]) is Some
    &&& (turn.messages@.last().tool_calls matches Some(v) ==> turn.call_index < v@.len())
}

pub open spec fn user_message(text: Seq<char>) -> MessageView {
    MessageView { role: "user"@, content: Some(text), tool_calls: None, tool_call_id: None, reasoning_details: None }
}

pub open spec fn tool_result_message(id: Seq<char>, text: Seq<char>) -> MessageView {
    MessageView { role: "tool"@, content: Some(text), tool_calls: None, tool_call_id: Some(id), reasoning_details: None }
}

/// The `task` arguments of a child's own copy under `own`: its entry alone.
pub open spec fn own_arguments(raw_entry: Seq<char>) -> Seq<char> {
    "{\"agents\":["@ + raw_entry + "]}"@
}

pub open spec fn own_copy(m: MessageView, k: int, raw_entry: Seq<char>) -> MessageView {
    MessageView {
        tool_calls: match m.tool_calls {
            Some(v) => Some(v.update(k, ToolCallView { arguments: own_arguments(raw_entry), ..v[k] })),
            None => None,
        },
        ..m
    }
}

/// The turn's tool results with the child's assignment in the scope's slot.
pub open spec fn answers(calls: Seq<ToolCallView>, results: Seq<Option<MessageView>>, k: int, assignment: Seq<char>) -> Seq<MessageView> {
    Seq::new(calls.len(), |i: int| if i == k {
        tool_result_message(calls[i].id, assignment)
    } else {
        results[i]->0
    })
}

/// A child's context. Fresh: the system message and the assignment. `before`:
/// the parent's messages up to, not including, the `task` turn, then the
/// assignment. `full`: the parent's messages byte for byte, then the turn's
/// tool results with the assignment in the scope's slot. `own`: the same,
/// but the child's copy of the `task` call holds its own entry alone.
pub open spec fn child_context_of(
    cut: Cut,
    fresh: bool,
    messages: Seq<MessageView>,
    calls: Seq<ToolCallView>,
    call_index: int,
    results: Seq<Option<MessageView>>,
    raw_entry: Seq<char>,
    assignment: Seq<char>,
) -> Seq<MessageView> {
    if fresh {
        seq![messages[0], user_message(assignment)]
    } else if cut == Cut::Before {
        messages.drop_last().push(user_message(assignment))
    } else {
        let base = if cut == Cut::Own {
            messages.update(messages.len() - 1, own_copy(messages.last(), call_index, raw_entry))
        } else {
            messages
        };
        base + answers(calls, results, call_index, assignment)
    }
}

pub fn child_context(cut: Cut, fresh: bool, turn: &ParentTurn, raw_entry: &str, assignment: &str) -> (r: Vec<Message>)
    requires
        turn_ready(*turn),
    ensures
        messages_view(r@) == child_context_of(
            cut,
            fresh,
            messages_view(turn.messages@),
            calls_view(turn.calls@),
            turn.call_index as int,
            results_view(turn.results@),
            raw_entry@,
            assignment@,
        ),
{
    let ghost mv = messages_view(turn.messages@);
    if fresh {
        let mut out: Vec<Message> = Vec::new();
        out.push(turn.messages[0].duplicate());
        out.push(Message::new("user", assignment));
        assert(messages_view(out@) =~= seq![mv[0], user_message(assignment@)]);
        return out;
    }
    let turn_index = turn.messages.len() - 1;
    if cut == Cut::Before {
        let mut out = copy_messages(&turn.messages, 0, turn_index);
        out.push(Message::new("user", assignment));
        assert(messages_view(out@) =~= mv.drop_last().push(user_message(assignment@)));
        return out;
    }
    let mut out = copy_messages(&turn.messages, 0, turn_index);
    let last = turn.messages[turn_index].duplicate();
    let ghost lv = last@;
    assert(lv == mv.last());
    let ghost want = if cut == Cut::Own { own_copy(lv, turn.call_index as int, raw_entry@) } else { lv };
    let last = if cut == Cut::Own {
        let Message { role, content, tool_calls, tool_call_id, reasoning_details } = last;
        let tool_calls = match tool_calls {
            Some(v) => {
                let ghost old_v = calls_view(v@);
                assert(lv.tool_calls == Some(old_v));
                assert(old_v.len() == v@.len());
                assert(turn.messages@.last()@ == lv);
                assert(turn.messages@.last().tool_calls is Some);
                assert(calls_view(turn.messages@.last().tool_calls->0@).len() == turn.messages@.last().tool_calls->0@.len());
                let mut v = v;
                let arguments = cat3("{\"agents\":[", raw_entry, "]}");
                let old = v.remove(turn.call_index);
                let replaced = ToolCall {
                    id: old.id,
                    call_type: old.call_type,
                    function: crate::forks::wire::ToolCallFunction { name: old.function.name, arguments },
                };
                v.insert(turn.call_index, replaced);
                assert(calls_view(v@) =~= old_v.update(
                    turn.call_index as int,
                    ToolCallView { arguments: own_arguments(raw_entry@), ..old_v[turn.call_index as int] },
                ));
                Some(v)
            },
            None => None,
        };
        let m = Message { role, content, tool_calls, tool_call_id, reasoning_details };
        assert(m@ == want);
        m
    } else {
        last
    };
    assert(last@ == want);
    out.push(last);
    let ghost base = messages_view(out@);
    assert(base =~= mv.subrange(0, turn_index as int).push(want));
    assert(base =~= (if cut == Cut::Own {
        mv.update(mv.len() - 1, own_copy(mv.last(), turn.call_index as int, raw_entry@))
    } else {
        mv
    }));
    let ghost answered = answers(
        calls_view(turn.calls@),
        results_view(turn.results@),
        turn.call_index as int,
        assignment@,
    );
    let mut i: usize = 0;
    while i < turn.calls.len()
        invariant
            turn_ready(*turn),
            i <= turn.calls@.len(),
            answered == answers(calls_view(turn.calls@), results_view(turn.results@), turn.call_index as int, assignment@),
            messages_view(out@) == base + answered.subrange(0, i as int),
        decreases turn.calls@.len() - i,
    {
        let ghost prev = messages_view(out@);
        if i == turn.call_index {
            out.push(Message::tool_result(turn.calls[i].id.as_str(), assignment));
            assert(calls_view(turn.calls@)[i as int] == turn.calls@[i as int]@);
        } else {
            assert(turn.results@[i as int] is Some);
            match &turn.results[i] {
                Some(m) => {
                    out.push(m.duplicate());
                },
                None => {},
            }
        }
        assert(messages_view(out@) =~= prev.push(answered[i as int]));
        i = i + 1;
        assert(messages_view(out@) =~= base + answered.subrange(0, i as int));
    }
    assert(answered.subrange(0, i as int) =~= answered);
    out
}

/// `own` differs from `full` only in the child's copy of the `task` call:
/// its arguments hold the child's own entry alone; every other message,
/// every other call and every other field is the same.
pub proof fn lemma_own_differs_from_full_only_in_the_task_call(
    messages: Seq<MessageView>,
    calls: Seq<ToolCallView>,
    call_index: int,
    results: Seq<Option<MessageView>>,
    raw_entry: Seq<char>,
    assignment: Seq<char>,
)
    requires
        messages.len() > 0,
        messages.last().tool_calls is Some,
        0 <= call_index < messages.last().tool_calls->0.len(),
    ensures
        ({
            let own = child_context_of(Cut::Own, false, messages, calls, call_index, results, raw_entry, assignment);
            let full = child_context_of(Cut::Full, false, messages, calls, call_index, results, raw_entry, assignment);
            let last = messages.len() - 1;
            let v = messages.last().tool_calls->0;
            &&& own.len() == full.len()
            &&& forall|i: int| 0 <= i < own.len() && i != last ==> own[i] == full[i]
            &&& full[last] == messages.last()
            &&& own[last] == (MessageView { tool_calls: Some(v.update(call_index, ToolCallView { arguments: own_arguments(raw_entry), ..v[call_index] })), ..full[last] })
        }),
{
}

/// A forked child under `full` starts with its parent's messages exactly,
/// and under `own` with all but the `task` turn exactly: the prefix the
/// provider serves from cache.
pub proof fn lemma_fork_inherits_prefix(
    cut: Cut,
    messages: Seq<MessageView>,
    calls: Seq<ToolCallView>,
    call_index: int,
    results: Seq<Option<MessageView>>,
    raw_entry: Seq<char>,
    assignment: Seq<char>,
)
    requires
        messages.len() > 0,
    ensures
        ({
            let ctx = child_context_of(cut, false, messages, calls, call_index, results, raw_entry, assignment);
            &&& cut == Cut::Full ==> ctx.subrange(0, messages.len() as int) == messages
            &&& cut == Cut::Own ==> ctx.subrange(0, messages.len() - 1) == messages.drop_last()
            &&& cut == Cut::Before ==> ctx.subrange(0, messages.len() - 1) == messages.drop_last()
            &&& cut != Cut::Before ==> ctx.len() == messages.len() + calls.len()
        }),
{
    let ctx = child_context_of(cut, false, messages, calls, call_index, results, raw_entry, assignment);
    if cut == Cut::Full {
        assert(ctx.subrange(0, messages.len() as int) =~= messages);
    }
    if cut == Cut::Own {
        assert(ctx.subrange(0, messages.len() - 1) =~= messages.drop_last());
    }
    if cut == Cut::Before {
        assert(ctx.subrange(0, messages.len() - 1) =~= messages.drop_last());
    }
}

/// How many leading messages a child's context shares with its parent's
/// turn: the system message when fresh; all but the `task` turn under
/// `before` and `own`; all of them under `full`.
pub open spec fn shared_len(cut: Cut, fresh: bool, n: nat) -> nat {
    if fresh {
        1
    } else if cut == Cut::Full {
        n
    } else {
        (n - 1) as nat
    }
}

pub fn shared_prefix(cut: Cut, fresh: bool, parent_len: usize) -> (r: usize)
    requires
        parent_len > 0,
    ensures
        r == shared_len(cut, fresh, parent_len as nat),
{
    if fresh {
        1
    } else if cut == Cut::Full {
        parent_len
    } else {
        parent_len - 1
    }
}

/// A child's context begins with exactly the messages it shares with its
/// parent's turn, byte for byte, and goes on with its own.
pub proof fn lemma_child_shares_its_prefix(
    cut: Cut,
    fresh: bool,
    messages: Seq<MessageView>,
    calls: Seq<ToolCallView>,
    call_index: int,
    results: Seq<Option<MessageView>>,
    raw_entry: Seq<char>,
    assignment: Seq<char>,
)
    requires
        messages.len() > 0,
    ensures
        ({
            let ctx = child_context_of(cut, fresh, messages, calls, call_index, results, raw_entry, assignment);
            let k = shared_len(cut, fresh, messages.len());
            &&& k <= messages.len()
            &&& k < ctx.len() || (k == ctx.len() && calls.len() == 0)
            &&& ctx.subrange(0, k as int) == messages.subrange(0, k as int)
        }),
{
    let ctx = child_context_of(cut, fresh, messages, calls, call_index, results, raw_entry, assignment);
    let k = shared_len(cut, fresh, messages.len());
    if fresh {
        assert(ctx.subrange(0, 1) =~= messages.subrange(0, 1));
    } else if cut == Cut::Before {
        assert(ctx.subrange(0, k as int) =~= messages.subrange(0, k as int));
    } else if cut == Cut::Own {
        assert(ctx.subrange(0, k as int) =~= messages.subrange(0, k as int));
    } else {
        assert(ctx.subrange(0, k as int) =~= messages.subrange(0, k as int));
    }
}

/// The face's note on a child's inherited context: which of its parent's
/// messages it starts from, before its own are shown.
pub fn context_line(parent: &str, shared: usize) -> (r: String)
    requires
        shared > 0,
    ensures
        r@ == "context: "@ + parent@ + "'s messages 0\u{2013}"@ + crate::text::decimal((shared - 1) as nat) + ", then"@,
{
    let mut line = cat3("context: ", parent, "'s messages 0\u{2013}");
    crate::text::push_decimal(&mut line, (shared - 1) as u64);
    line.append(", then");
    line
}

/// `parent › name`, a child's path in the tree.
pub fn child_path(parent: &str, name: &str) -> (r: String)
    ensures
        r@ == parent@ + " \u{203a} "@ + name@,
{
    cat3(parent, " \u{203a} ", name)
}

/// The other names of a call, in declared order.
pub open spec fn siblings_of(names: Seq<Seq<char>>, name: Seq<char>) -> Seq<Seq<char>> {
    names.filter(|n: Seq<char>| n != name)
}

pub fn siblings(names: &Vec<String>, name: &str) -> (r: Vec<String>)
    ensures
        views(r@) == siblings_of(views(names@), name@),
{
    let ghost nv = views(names@);
    let mut out: Vec<String> = Vec::new();
    let mut i: usize = 0;
    while i < names.len()
        invariant
            nv == views(names@),
            i <= names@.len(),
            views(out@) == nv.subrange(0, i as int).filter(|n: Seq<char>| n != name@),
        decreases names@.len() - i,
    {
        let ghost prev = views(out@);
        let ghost sub = nv.subrange(0, i as int);
        if !crate::text::same(names[i].as_str(), name) {
            out.push(crate::text::copy(&names[i]));
            assert(views(out@) =~= prev.push(nv[i as int]));
        }
        assert(nv.subrange(0, i + 1).drop_last() =~= sub);
        assert(nv.subrange(0, i + 1).filter(|n: Seq<char>| n != name@) =~= if nv[i as int] != name@ {
            sub.filter(|n: Seq<char>| n != name@).push(nv[i as int])
        } else {
            sub.filter(|n: Seq<char>| n != name@)
        }) by {
            reveal(Seq::filter);
            assert(nv.subrange(0, i + 1).last() == nv[i as int]);
        }
        i = i + 1;
    }
    assert(nv.subrange(0, i as int) =~= nv);
    out
}

/// Whether a `task` call opened at `depth` would put its children past the
/// limit; if so, the call is answered with the refusal instead.
pub fn scope_refusal(depth: usize, max_depth: usize) -> (r: Option<String>)
    ensures
        depth + 1 > max_depth ==> (r matches Some(t) && t@ == crate::forks::framing::depth_limit_text(max_depth as nat)),
        depth + 1 <= max_depth ==> r is None,
{
    if depth >= max_depth {
        Some(crate::forks::framing::depth_limit_error(max_depth))
    } else {
        None
    }
}

/// How a child of a scope ended, as its parent hears of it.
pub struct ChildReport {
    pub outcome: Outcome,
    pub handoff: String,
}

pub open spec fn any_blocks(reports: Seq<(String, ChildReport)>) -> bool {
    exists|i: int| 0 <= i < reports.len() && blocks(#[trigger] reports[i].1.outcome)
}

pub open spec fn report_lines(reports: Seq<(String, ChildReport)>) -> Seq<(Seq<char>, Seq<char>, Seq<char>)> {
    reports.map_values(|p: (String, ChildReport)| (p.0@, outcome_short(p.1.outcome), p.1.handoff@))
}

/// What a scope returns once every child has ended: the parent stays
/// suspended if any child faulted, panicked or is itself suspended;
/// otherwise it is resumed with every child's name, ending and report.
pub fn scope_outcome(reports: &Vec<(String, ChildReport)>) -> (r: Result<String, Outcome>)
    ensures
        any_blocks(reports@) ==> (r matches Err(o) && o is Suspended),
        !any_blocks(reports@) ==> (r matches Ok(t) && t@ == scope_result_text(report_lines(reports@))),
{
    let mut lines: Vec<(String, String, String)> = Vec::new();
    let mut blocked = false;
    let mut i: usize = 0;
    while i < reports.len()
        invariant
            i <= reports@.len(),
            triples_view(lines@) == report_lines(reports@).subrange(0, i as int),
            blocked == exists|k: int| 0 <= k < i && blocks(#[trigger] reports@[k].1.outcome),
        decreases reports@.len() - i,
    {
        let ghost prev = triples_view(lines@);
        let report = &reports[i];
        if report.1.outcome.blocks_the_parent() {
            blocked = true;
        }
        lines.push((crate::text::copy(&report.0), owned(report.1.outcome.short()), crate::text::copy(&report.1.handoff)));
        assert(triples_view(lines@) =~= prev.push(report_lines(reports@)[i as int]));
        i = i + 1;
        assert(triples_view(lines@) =~= report_lines(reports@).subrange(0, i as int));
    }
    if blocked {
        return Err(Outcome::Suspended);
    }
    assert(report_lines(reports@).subrange(0, i as int) =~= report_lines(reports@));
    Ok(scope_result(&lines))
}


/// Whether a child's context can be cut from `turn`.
pub fn turn_is_ready(turn: &ParentTurn) -> (r: bool)
    ensures
        r == turn_ready(*turn),
{
    if turn.messages.len() == 0 || turn.call_index >= turn.calls.len() || turn.results.len() != turn.calls.len() {
        return false;
    }
    let mut i: usize = 0;
    while i < turn.results.len()
        invariant
            i <= turn.results@.len(),
            forall|j: int| 0 <= j < i && j != turn.call_index ==> (#[trigger] turn.results@[j]) is Some,
        decreases turn.results@.len() - i,
    {
        if i != turn.call_index && turn.results[i].is_none() {
            return false;
        }
        i = i + 1;
    }
    match &turn.messages[turn.messages.len() - 1].tool_calls {
        Some(calls) => turn.call_index < calls.len(),
        None => true,
    }
}

/// What an agent does after a reply.
pub enum ReplyStep {
    /// The reply called no tool: the agent is done, and this is its report.
    Completed(String),
    /// The reply called tools: they run, and this is the report so far.
    Continue(String),
}

/// The step after a reply with text `text`: done with that text as the
/// report when it called no tool; otherwise on, with the report so far
/// taken from the text when it says anything beyond whitespace.
pub fn after_reply(text: &str, calls: usize, handoff: String) -> (r: ReplyStep)
    ensures
        calls == 0 ==> (r matches ReplyStep::Completed(t) && t@ == text@),
        calls > 0 ==> (r matches ReplyStep::Continue(h) && (crate::text::trimmed(text@).len() != 0 ==> h@ == text@)
            && (crate::text::trimmed(text@).len() == 0 ==> h@ == handoff@)),
{
    if calls == 0 {
        ReplyStep::Completed(owned(text))
    } else {
        ReplyStep::Continue(crate::forks::run::next_handoff(text, handoff))
    }
}

/// The turn's tool results, appended in call order.
pub fn push_results(messages: &mut Vec<Message>, results: Vec<Option<Message>>)
    requires
        forall|i: int| 0 <= i < results@.len() ==> (#[trigger] results@[i]) is Some,
    ensures
        messages_view(final(messages)@) == messages_view(old(messages)@)
            + results@.map_values(|o: Option<Message>| o->0@),
{
    let ghost start = messages_view(messages@);
    let mut i: usize = 0;
    while i < results.len()
        invariant
            i <= results@.len(),
            forall|j: int| 0 <= j < results@.len() ==> (#[trigger] results@[j]) is Some,
            messages_view(messages@) == start + results@.subrange(0, i as int).map_values(|o: Option<Message>| o->0@),
        decreases results@.len() - i,
    {
        let ghost before = messages_view(messages@);
        let m = match &results[i] {
            Some(m) => m.duplicate(),
            None => Message::new("tool", ""),
        };
        messages.push(m);
        assert(messages_view(messages@) =~= before.push(results@[i as int]->0@));
        assert(results@.subrange(0, i + 1).map_values(|o: Option<Message>| o->0@)
            =~= results@.subrange(0, i as int).map_values(|o: Option<Message>| o->0@).push(results@[i as int]->0@));
        i = i + 1;
    }
    assert(results@.subrange(0, i as int) =~= results@);
}

} // verus!
