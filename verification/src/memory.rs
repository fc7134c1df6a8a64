//! The memory of a session: a history of messages and the window of it that
//! fits a budget of tokens.
use crate::error::CogentResult;
use crate::json::{self, array_of, json_quote};
use crate::text::{self, copy_str, from_chars, sub_chars, to_chars, trim_end_chars};
use crate::types::{self, copy_calls, copy_opt, Message, MessageView, Role, ToolCall, ToolCallView};
use vstd::prelude::*;

verus! {

/// The least piece of a message, in tokens, that is worth keeping.
pub const MIN_MESSAGE_SNIPPET_TOKENS: usize = 32;

/// How an estimator counts: the tokens of a text, and the characters that a
/// number of tokens stands for.
#[verifier::ext_equal]
pub struct TokenModel {
    pub tokens: spec_fn(Seq<char>) -> nat,
    pub chars: spec_fn(nat) -> nat,
}

/// Estimates how many tokens a text has.
pub trait TokenEstimator: Send + Sync {
    /// The number of tokens of a text: one for every four characters, unless the
    /// estimator counts otherwise.
    open spec fn tokens(&self, text: Seq<char>) -> nat {
        text.len() / 4
    }

    /// The number of characters that a number of tokens stands for: four for
    /// every token, unless the estimator counts otherwise.
    open spec fn chars(&self, tokens: nat) -> nat {
        clip(4 * tokens)
    }

    /// The number of tokens of a text.
    fn estimate(&self, text: &str) -> (n: usize)
        ensures
            n == self.tokens(text@),
    ;

    /// The number of characters that a number of tokens stands for: four for
    /// every token, as far as `usize` reaches. An estimator that counts otherwise
    /// has to say so here, or pieces of messages get the wrong length.
    fn token_to_chars(&self, tokens: usize) -> (n: usize)
        default_ensures
            n == clip(4 * tokens as nat),
    {
        if tokens <= usize::MAX / 4 {
            tokens * 4
        } else {
            usize::MAX
        }
    }
}

/// Whether what an estimator answers is what it says of the characters of its
/// tokens.
pub open spec fn counts_chars<E: TokenEstimator>(estimator: &E) -> bool {
    forall|tokens: usize, n: usize| #[trigger]
        call_ensures(E::token_to_chars, (estimator, tokens), n) ==> n == estimator.chars(
            tokens as nat,
        )
}

/// How an estimator counts.
pub open spec fn model_of<E: TokenEstimator + ?Sized>(estimator: &E) -> TokenModel {
    TokenModel {
        tokens: |t: Seq<char>| estimator.tokens(t),
        chars: |n: nat| estimator.chars(n),
    }
}

/// Counts one token for every four characters.
#[derive(Debug, Clone, Copy, Default)]
pub struct CharBasedEstimator;

/// One token for every four characters, and four characters for every token as
/// far as `usize` reaches.
pub open spec fn char_model() -> TokenModel {
    TokenModel {
        tokens: |t: Seq<char>| t.len() / 4,
        chars: |n: nat| clip(4 * n),
    }
}

impl TokenEstimator for CharBasedEstimator {
    fn estimate(&self, text: &str) -> (n: usize) {
        text.unicode_len() / 4
    }
}

// ---------------------------------------------------------------------------
// The size of a message
// ---------------------------------------------------------------------------

/// A tool call as a JSON object.
pub open spec fn call_json(c: ToolCallView) -> Seq<char> {
    let fields = "{\"id\":"@ + json::json_string(c.id) + ",\"name\":"@ + json::json_string(c.name)
        + ",\"arguments\":"@ + c.arguments;
    match c.original_name {
        Some(n) => fields + ",\"original_name\":"@ + json::json_string(n) + "}"@,
        None => fields + "}"@,
    }
}

/// A list of tool calls as a JSON array.
pub open spec fn calls_json(calls: Seq<ToolCallView>) -> Seq<char> {
    json::json_array(calls.map_values(|c: ToolCallView| call_json(c)))
}

/// A tool call as a JSON object.
fn call_to_json(c: &ToolCall) -> (r: String)
    ensures
        r@ == call_json(c@),
{
    let mut s = copy_str("{\"id\":");
    let id = json_quote(&c.id);
    s.append(&id);
    s.append(",\"name\":");
    let name = json_quote(&c.name);
    s.append(&name);
    s.append(",\"arguments\":");
    s.append(&c.arguments);
    match &c.original_name {
        Some(n) => {
            s.append(",\"original_name\":");
            let n = json_quote(n);
            s.append(&n);
            s.append("}");
        },
        None => {
            s.append("}");
        },
    }
    s
}

/// A list of tool calls as a JSON array, without whitespace.
pub fn calls_to_json(calls: &[ToolCall]) -> (r: String)
    ensures
        r@ == calls_json(types::calls_view(calls@)),
{
    let mut items: Vec<String> = Vec::new();
    let mut i: usize = 0;
    while i < calls.len()
        invariant
            i <= calls@.len(),
            items@.len() == i,
            forall|k: int| 0 <= k < i ==> (#[trigger] items@[k])@ == call_json(calls@[k]@),
        decreases calls@.len() - i,
    {
        items.push(call_to_json(&calls[i]));
        i += 1;
    }
    assert(text::views(items@) =~= types::calls_view(calls@).map_values(
        |c: ToolCallView| call_json(c),
    ));
    array_of(&items)
}

/// The tokens that the tool calls of a message take.
pub open spec fn tool_call_tokens(model: TokenModel, m: MessageView) -> nat {
    match m.tool_calls {
        Some(c) => (model.tokens)(calls_json(c)),
        None => 0,
    }
}

/// A number, or the greatest `usize` where it is beyond that.
pub open spec fn clip(n: nat) -> nat {
    if n <= usize::MAX {
        n
    } else {
        usize::MAX as nat
    }
}

/// The tokens of a message: those of its text and those of its tool calls, as
/// far as `usize` reaches.
pub open spec fn message_tokens(model: TokenModel, m: MessageView) -> nat {
    clip((model.tokens)(m.content) + tool_call_tokens(model, m))
}

/// The difference of two numbers, or zero where the second is greater.
pub open spec fn less(a: nat, b: nat) -> nat {
    if a >= b {
        (a - b) as nat
    } else {
        0
    }
}

/// The tokens that the tool calls of a message take.
fn estimate_tool_call_tokens<E: TokenEstimator + ?Sized>(estimator: &E, msg: &Message) -> (n: usize)
    ensures
        n == tool_call_tokens(model_of(estimator), msg@),
{
    match &msg.tool_calls {
        Some(calls) => {
            let text = calls_to_json(calls);
            estimator.estimate(&text)
        },
        None => 0,
    }
}

/// The tokens of a message: those of its text and those of its tool calls in
/// JSON.
pub fn estimate_message_tokens<E: TokenEstimator + ?Sized>(estimator: &E, msg: &Message) -> (n: usize)
    ensures
        n == message_tokens(model_of(estimator), msg@),
{
    let content_tokens = estimator.estimate(&msg.content);
    let calls = estimate_tool_call_tokens(estimator, msg);
    content_tokens.saturating_add(calls)
}

// ---------------------------------------------------------------------------
// The window
// ---------------------------------------------------------------------------

/// The mark of a text that was cut.
pub open spec fn marker() -> Seq<char> {
    "\n…[truncated]"@
}

/// A message cut to a budget of tokens. The tool calls stay whole; where they
/// leave no room for text there is nothing.
pub open spec fn truncated(model: TokenModel, m: MessageView, budget: nat) -> Option<MessageView> {
    let room = less(budget, tool_call_tokens(model, m));
    let mark = (model.tokens)(marker());
    let keep = less(room, if mark > 1 { mark } else { 1 });
    let take = if keep > 0 {
        (model.chars)(keep)
    } else {
        (model.chars)(room)
    };
    if room == 0 {
        None
    } else if (model.tokens)(m.content) <= room {
        Some(m)
    } else if take == 0 {
        None
    } else if take >= m.content.len() {
        Some(m)
    } else {
        let head = text::trim_end(m.content.take(take as int));
        Some(
            MessageView {
                content: if keep > 0 {
                    head + marker()
                } else {
                    head
                },
                ..m
            },
        )
    }
}

/// The index of the first message of the user.
pub open spec fn task_index(h: Seq<MessageView>) -> Option<int>
    decreases h.len(),
{
    if h.len() == 0 {
        None
    } else {
        match task_index(h.drop_last()) {
            Some(i) => Some(i),
            None => if h.last().role == Role::User {
                Some(h.len() - 1)
            } else {
                None
            },
        }
    }
}

/// The latest messages of a history, without the one at index `skip`, that fit
/// into a number of tokens: from the last one back, each while it fits; the
/// first that does not fit is cut, where at least the least piece is left for
/// it, and ends the window.
pub open spec fn recent(
    model: TokenModel,
    h: Seq<MessageView>,
    skip: Option<int>,
    remaining: nat,
) -> Seq<MessageView>
    decreases h.len(),
{
    if h.len() == 0 {
        Seq::empty()
    } else if skip == Some(h.len() - 1) {
        recent(model, h.drop_last(), skip, remaining)
    } else {
        let t = message_tokens(model, h.last());
        if t <= remaining {
            recent(model, h.drop_last(), skip, (remaining - t) as nat).push(h.last())
        } else if remaining >= MIN_MESSAGE_SNIPPET_TOKENS {
            match truncated(model, h.last(), remaining) {
                Some(m) => seq![m],
                None => Seq::empty(),
            }
        } else {
            Seq::empty()
        }
    }
}

/// What is left of the budget after the system message.
pub open spec fn session_budget(
    model: TokenModel,
    system: Option<MessageView>,
    max_tokens: nat,
) -> nat {
    match system {
        Some(s) => less(max_tokens, message_tokens(model, s)),
        None => max_tokens,
    }
}

/// What is set aside for the task: its size, but at most a third of the budget,
/// and at least one token.
pub open spec fn task_reserve(model: TokenModel, task: MessageView, budget: nat) -> nat {
    let size = if message_tokens(model, task) >= 1 {
        message_tokens(model, task)
    } else {
        1
    };
    let third = if budget / 3 >= 1 {
        budget / 3
    } else {
        1
    };
    if size <= third {
        size
    } else {
        third
    }
}

/// A message, if there is one, as a list.
pub open spec fn opt_seq(m: Option<MessageView>) -> Seq<MessageView> {
    match m {
        Some(m) => seq![m],
        None => Seq::empty(),
    }
}

/// The window of a session: the system message, the task, which is the first
/// message of the user, and the latest of the other messages.
pub open spec fn window(
    model: TokenModel,
    system: Option<MessageView>,
    h: Seq<MessageView>,
    max_tokens: nat,
) -> Seq<MessageView> {
    let budget = session_budget(model, system, max_tokens);
    match task_index(h) {
        Some(i) => {
            let reserve = task_reserve(model, h[i], budget);
            opt_seq(system) + opt_seq(truncated(model, h[i], reserve)) + recent(
                model,
                h,
                Some(i),
                less(budget, reserve),
            )
        },
        None => opt_seq(system) + recent(model, h, None, budget),
    }
}

/// An estimator that answers what it says of its tokens.
struct Counter<E: TokenEstimator> {
    estimator: Box<E>,
}

impl<E: TokenEstimator> Counter<E> {
    #[verifier::type_invariant]
    spec fn counts(&self) -> bool {
        counts_chars(&*self.estimator)
    }

    /// The number of characters that a number of tokens stands for.
    fn token_to_chars(&self, tokens: usize) -> (n: usize)
        ensures
            n == self.estimator.chars(tokens as nat),
    {
        proof {
            use_type_invariant(self);
        }
        self.estimator.token_to_chars(tokens)
    }
}

/// The memory of one session.
pub struct WindowMemory<E: TokenEstimator> {
    history: Vec<Message>,
    system: Option<Message>,
    max_tokens: usize,
    counter: Counter<E>,
}

/// What an optional message says.
pub open spec fn opt_message_view(m: Option<Message>) -> Option<MessageView> {
    match m {
        Some(m) => Some(m@),
        None => None,
    }
}

impl<E: TokenEstimator> WindowMemory<E> {
    /// The messages of the session, the oldest first.
    pub closed spec fn history(&self) -> Seq<MessageView> {
        types::messages_view(self.history@)
    }

    /// The system message.
    pub closed spec fn system(&self) -> Option<MessageView> {
        opt_message_view(self.system)
    }

    /// How the memory counts tokens.
    pub closed spec fn model(&self) -> TokenModel {
        model_of(&*self.counter.estimator)
    }

    /// The budget of tokens that the memory was made with.
    pub closed spec fn budget(&self) -> usize {
        self.max_tokens
    }

    /// An empty memory.
    pub fn new(max_tokens: usize, estimator: Box<E>) -> (r: Self)
        requires
            counts_chars(&*estimator),
        ensures
            r.history() == Seq::<MessageView>::empty(),
            r.system() is None,
            r.model() == model_of(&*estimator),
            r.budget() == max_tokens,
    {
        let counter = Counter { estimator };
        let r = WindowMemory { history: Vec::new(), system: None, max_tokens, counter };
        assert(r.history() =~= Seq::<MessageView>::empty());
        r
    }

    /// The budget of tokens that the memory was made with.
    pub fn max_tokens(&self) -> (r: usize)
        ensures
            r == self.budget(),
    {
        self.max_tokens
    }

    /// Number of messages of the session.
    pub fn history_len(&self) -> (r: usize)
        ensures
            r == self.history().len(),
    {
        self.history.len()
    }

    /// Whether there is a system message.
    pub fn has_system(&self) -> (r: bool)
        ensures
            r == self.system() is Some,
    {
        self.system.is_some()
    }

    /// Sets or replaces the system message.
    pub fn set_system(&mut self, message: Message)
        ensures
            final(self).system() == Some(message@),
            final(self).history() == old(self).history(),
            final(self).model() == old(self).model(),
            final(self).budget() == old(self).budget(),
    {
        self.system = Some(message);
    }

    /// Appends a message to the session.
    pub fn append(&mut self, message: Message)
        ensures
            final(self).history() == old(self).history().push(message@),
            final(self).system() == old(self).system(),
            final(self).model() == old(self).model(),
            final(self).budget() == old(self).budget(),
    {
        let ghost before = self.history@;
        self.history.push(message);
        assert(types::messages_view(self.history@) =~= types::messages_view(before).push(message@));
    }

    /// Forgets the session. The system message stays.
    pub fn clear(&mut self)
        ensures
            final(self).history() == Seq::<MessageView>::empty(),
            final(self).system() == old(self).system(),
            final(self).model() == old(self).model(),
            final(self).budget() == old(self).budget(),
    {
        self.history.clear();
        assert(types::messages_view(self.history@) =~= Seq::<MessageView>::empty());
    }

    /// A message cut to a budget of tokens.
    pub fn truncate_to_budget(&self, msg: &Message, budget_tokens: usize) -> (r: Option<Message>)
        ensures
            opt_message_view(r) == truncated(self.model(), msg@, budget_tokens as nat),
    {
        let calls = estimate_tool_call_tokens(&*self.counter.estimator, msg);
        let room: usize = budget_tokens.saturating_sub(calls);
        if room == 0 {
            return None;
        }
        let content_tokens = self.counter.estimator.estimate(&msg.content);
        if content_tokens <= room {
            return Some(msg.clone());
        }
        let marker = "\n…[truncated]";
        let estimated = self.counter.estimator.estimate(marker);
        let mark: usize = if estimated > 1 { estimated } else { 1 };
        let keep: usize = room.saturating_sub(mark);
        let take: usize = if keep > 0 {
            self.counter.token_to_chars(keep)
        } else {
            self.counter.token_to_chars(room)
        };
        if take == 0 {
            return None;
        }
        let content = to_chars(&msg.content);
        if take >= content.len() {
            return Some(msg.clone());
        }
        let taken = sub_chars(&content, 0, take);
        assert(taken@ =~= msg.content@.take(take as int));
        let head = trim_end_chars(&taken);
        let mut cut = from_chars(&head);
        if keep > 0 {
            cut.append(marker);
        }
        let tool_calls = match &msg.tool_calls {
            Some(c) => Some(copy_calls(c)),
            None => None,
        };
        Some(
            Message {
                role: msg.role,
                content: cut,
                tool_calls,
                tool_call_id: copy_opt(&msg.tool_call_id),
            },
        )
    }

    /// The index of the first message of the user.
    fn find_task(&self) -> (r: Option<usize>)
        ensures
            match r {
                Some(i) => i < self.history().len() && task_index(self.history()) == Some(i as int),
                None => task_index(self.history()) is None,
            },
    {
        let ghost h = self.history();
        let mut i: usize = 0;
        while i < self.history.len()
            invariant
                i <= self.history@.len(),
                h == self.history(),
                h == types::messages_view(self.history@),
                task_index(h.take(i as int)) is None,
            decreases self.history@.len() - i,
        {
            proof {
                assert(h.take(i + 1).drop_last() =~= h.take(i as int));
                assert(h.take(i + 1).last() == self.history@[i as int]@);
            }
            if self.history[i].role == Role::User {
                proof {
                    lemma_task_index_stable(h, i + 1);
                }
                return Some(i);
            }
            i += 1;
        }
        assert(h.take(h.len() as int) =~= h);
        None
    }

    /// The window of the session that fits into a number of tokens: the system
    /// message, the task and the latest of the other messages.
    pub fn get_context(&self, max_tokens: usize) -> (r: CogentResult<Vec<Message>>)
        ensures
            r is Ok,
            types::messages_view(r->Ok_0@) == window(
                self.model(),
                self.system(),
                self.history(),
                max_tokens as nat,
            ),
    {
        let ghost model = self.model();
        let ghost h = self.history();
        let mut result: Vec<Message> = Vec::new();
        let mut budget: usize = max_tokens;
        if let Some(sys) = &self.system {
            let size = estimate_message_tokens(&*self.counter.estimator, sys);
            budget = budget.saturating_sub(size);
            result.push(sys.clone());
        }
        assert(types::messages_view(result@) =~= opt_seq(self.system()));
        assert(budget == session_budget(model, self.system(), max_tokens as nat));

        let task = self.find_task();
        let ghost skip: Option<int> = match task {
            Some(i) => Some(i as int),
            None => None,
        };
        let ghost front = types::messages_view(result@);
        let ghost mut kept: Seq<MessageView> = Seq::empty();
        if let Some(i) = task {
            let size = estimate_message_tokens(&*self.counter.estimator, &self.history[i]);
            let size: usize = if size > 1 { size } else { 1 };
            let third: usize = if budget / 3 > 1 { budget / 3 } else { 1 };
            let reserve: usize = if size < third { size } else { third };
            assert(h[i as int] == self.history@[i as int]@);
            assert(reserve == task_reserve(model, h[i as int], budget as nat));
            budget = budget.saturating_sub(reserve);
            let cut = self.truncate_to_budget(&self.history[i], reserve);
            proof {
                kept = opt_seq(truncated(model, h[i as int], reserve as nat));
            }
            if let Some(m) = cut {
                result.push(m);
            }
            assert(types::messages_view(result@) =~= front + kept);
        }
        assert(types::messages_view(result@) =~= front + kept);
        assert(window(model, self.system(), h, max_tokens as nat) =~= front + kept + recent(
            model,
            h,
            skip,
            budget as nat,
        ));

        let mut remaining: usize = budget;
        let mut selected: Vec<Message> = Vec::new();
        let mut i: usize = self.history.len();
        let mut done = false;
        let ghost whole = recent(model, h, skip, budget as nat);
        assert(h.take(i as int) =~= h);
        assert(whole =~= recent(model, h.take(i as int), skip, remaining as nat)
            + types::messages_view(selected@).reverse());
        while i > 0 && !done
            invariant
                i <= self.history@.len(),
                model == self.model(),
                h == self.history(),
                h == types::messages_view(self.history@),
                skip == (match task {
                    Some(i) => Some(i as int),
                    None => None::<int>,
                }),
                !done ==> whole == recent(model, h.take(i as int), skip, remaining as nat)
                    + types::messages_view(selected@).reverse(),
                done ==> whole == types::messages_view(selected@).reverse(),
            decreases i,
        {
            let ghost old_sel = types::messages_view(selected@);
            let ghost t = h.take(i as int);
            i -= 1;
            proof {
                assert(t.drop_last() =~= h.take(i as int));
                assert(t.last() == self.history@[i as int]@);
            }
            let is_task = match task {
                Some(k) => k == i,
                None => false,
            };
            if !is_task {
                let msg = &self.history[i];
                let size = estimate_message_tokens(&*self.counter.estimator, msg);
                if size <= remaining {
                    selected.push(msg.clone());
                    proof {
                        let rest = recent(model, h.take(i as int), skip, (remaining - size) as nat);
                        assert(types::messages_view(selected@) =~= old_sel.push(msg@));
                        assert(old_sel.push(msg@).reverse() =~= seq![msg@] + old_sel.reverse());
                        assert(rest.push(msg@) + old_sel.reverse() =~= rest + (seq![msg@]
                            + old_sel.reverse()));
                    }
                    remaining -= size;
                } else if remaining >= MIN_MESSAGE_SNIPPET_TOKENS {
                    let cut = self.truncate_to_budget(msg, remaining);
                    if let Some(m) = cut {
                        let ghost mv = m@;
                        selected.push(m);
                        proof {
                            assert(types::messages_view(selected@) =~= old_sel.push(mv));
                            assert(old_sel.push(mv).reverse() =~= seq![mv] + old_sel.reverse());
                        }
                    } else {
                        assert(Seq::<MessageView>::empty() + old_sel.reverse()
                            =~= old_sel.reverse());
                    }
                    done = true;
                } else {
                    assert(Seq::<MessageView>::empty() + old_sel.reverse() =~= old_sel.reverse());
                    done = true;
                }
            }
        }
        proof {
            if !done {
                assert(h.take(0).len() == 0);
                assert(Seq::<MessageView>::empty() + types::messages_view(selected@).reverse()
                    =~= types::messages_view(selected@).reverse());
            }
        }

        let mut k: usize = selected.len();
        let ghost base = front + kept;
        let ghost rev = types::messages_view(selected@).reverse();
        assert(base + rev.take(0) =~= base);
        while k > 0
            invariant
                k <= selected@.len(),
                rev == types::messages_view(selected@).reverse(),
                types::messages_view(result@) == base + rev.take(selected@.len() - k),
            decreases k,
        {
            k -= 1;
            let ghost before = types::messages_view(result@);
            let m = selected[k].clone();
            let ghost mv = m@;
            result.push(m);
            proof {
                assert(types::messages_view(result@) =~= before.push(mv));
                let n = selected@.len() - k;
                assert(rev.take(n)[n - 1] == types::messages_view(selected@)[k as int]);
                assert(rev.take(n) =~= rev.take(n - 1).push(mv));
                assert(base + rev.take(n) =~= (base + rev.take(n - 1)).push(mv));
            }
        }
        assert(rev.take(rev.len() as int) =~= rev);
        Ok(result)
    }
}

impl WindowMemory<CharBasedEstimator> {
    /// An empty memory that counts one token for every four characters.
    pub fn with_default_estimator(max_tokens: usize) -> (r: Self)
        ensures
            r.history() == Seq::<MessageView>::empty(),
            r.system() is None,
            r.model() == char_model(),
            r.budget() == max_tokens,
    {
        let r = Self::new(max_tokens, Box::new(CharBasedEstimator));
        assert(r.model() =~= char_model());
        r
    }
}

/// The index of the task does not depend on what comes after it.
proof fn lemma_task_index_stable(h: Seq<MessageView>, n: int)
    requires
        0 <= n <= h.len(),
        task_index(h.take(n)) is Some,
    ensures
        task_index(h) == task_index(h.take(n)),
    decreases h.len(),
{
    if n < h.len() {
        assert(h.drop_last().take(n) =~= h.take(n));
        lemma_task_index_stable(h.drop_last(), n);
    } else {
        assert(h.take(n) =~= h);
    }
}

// ---------------------------------------------------------------------------
// Laws
// ---------------------------------------------------------------------------

/// The tokens of a list of messages.
pub open spec fn total_tokens(model: TokenModel, messages: Seq<MessageView>) -> nat
    decreases messages.len(),
{
    if messages.len() == 0 {
        0
    } else {
        total_tokens(model, messages.drop_last()) + message_tokens(model, messages.last())
    }
}

proof fn lemma_total_append(model: TokenModel, a: Seq<MessageView>, b: Seq<MessageView>)
    ensures
        total_tokens(model, a + b) == total_tokens(model, a) + total_tokens(model, b),
    decreases b.len(),
{
    if b.len() == 0 {
        assert(a + b =~= a);
    } else {
        lemma_total_append(model, a, b.drop_last());
        assert((a + b).drop_last() =~= a + b.drop_last());
    }
}

proof fn lemma_total_one(model: TokenModel, m: MessageView)
    ensures
        total_tokens(model, seq![m]) == message_tokens(model, m),
{
    reveal_with_fuel(total_tokens, 2);
    assert(seq![m].drop_last() =~= Seq::empty());
}

proof fn lemma_trim_end_shorter(s: Seq<char>)
    ensures
        text::trim_end(s).is_prefix_of(s),
    decreases s.len(),
{
    if s.len() > 0 && text::is_whitespace(s.last()) {
        lemma_trim_end_shorter(s.drop_last());
    }
}

/// A message that was cut to a budget takes no more than it.
pub proof fn law_truncated_fits(m: MessageView, budget: nat)
    ensures
        truncated(char_model(), m, budget) matches Some(x) ==> message_tokens(char_model(), x)
            <= budget,
{
    reveal_strlit("\n…[truncated]");
    let model = char_model();
    assert((model.tokens)(marker()) == 3);
    if let Some(x) = truncated(model, m, budget) {
        let room = less(budget, tool_call_tokens(model, m));
        let keep = less(room, 3);
        let take = if keep > 0 {
            (model.chars)(keep)
        } else {
            (model.chars)(room)
        };
        if (model.tokens)(m.content) > room && take < m.content.len() {
            lemma_trim_end_shorter(m.content.take(take as int));
            assert(tool_call_tokens(model, x) == tool_call_tokens(model, m));
            assert(x.content.len() <= take + (if keep > 0 {
                13nat
            } else {
                0nat
            }));
        }
    }
}

proof fn lemma_recent_fits(h: Seq<MessageView>, skip: Option<int>, remaining: nat)
    ensures
        total_tokens(char_model(), recent(char_model(), h, skip, remaining)) <= remaining,
    decreases h.len(),
{
    let model = char_model();
    if h.len() > 0 {
        if skip == Some(h.len() - 1) {
            lemma_recent_fits(h.drop_last(), skip, remaining);
        } else {
            let t = message_tokens(model, h.last());
            if t <= remaining {
                let rest = recent(model, h.drop_last(), skip, (remaining - t) as nat);
                lemma_recent_fits(h.drop_last(), skip, (remaining - t) as nat);
                assert(rest.push(h.last()).drop_last() =~= rest);
            } else if remaining >= MIN_MESSAGE_SNIPPET_TOKENS {
                law_truncated_fits(h.last(), remaining);
                if let Some(m) = truncated(model, h.last(), remaining) {
                    lemma_total_one(model, m);
                }
            }
        }
    }
}

/// The window keeps to its budget, counted at four characters a token: the
/// system message, the task and the rest take no more than `max_tokens`. The
/// system message has to fit alone, with a token to spare for a task that takes
/// one.
pub proof fn law_window_fits_budget(
    system: Option<MessageView>,
    h: Seq<MessageView>,
    max_tokens: nat,
)
    requires
        system matches Some(s) ==> message_tokens(char_model(), s) <= max_tokens,
        task_index(h) matches Some(i) ==> {
            ||| session_budget(char_model(), system, max_tokens) >= 1
            ||| total_tokens(char_model(), opt_seq(truncated(char_model(), h[i], 1))) == 0
        },
    ensures
        total_tokens(char_model(), window(char_model(), system, h, max_tokens)) <= max_tokens,
{
    let model = char_model();
    let budget = session_budget(model, system, max_tokens);
    if let Some(s) = system {
        lemma_total_one(model, s);
    }
    assert(total_tokens(model, opt_seq(system)) + budget <= max_tokens);
    match task_index(h) {
        Some(i) => {
            let reserve = task_reserve(model, h[i], budget);
            let task = truncated(model, h[i], reserve);
            law_truncated_fits(h[i], reserve);
            if let Some(t) = task {
                lemma_total_one(model, t);
            }
            assert(total_tokens(model, opt_seq(task)) + less(budget, reserve) <= budget);
            let rest = recent(model, h, Some(i), less(budget, reserve));
            lemma_recent_fits(h, Some(i), less(budget, reserve));
            lemma_total_append(model, opt_seq(system), opt_seq(task));
            lemma_total_append(model, opt_seq(system) + opt_seq(task), rest);
        },
        None => {
            let rest = recent(model, h, None, budget);
            lemma_recent_fits(h, None, budget);
            lemma_total_append(model, opt_seq(system), rest);
        },
    }
}

/// The system message is always the first of the window, whole.
pub proof fn law_system_comes_first(
    model: TokenModel,
    system: MessageView,
    h: Seq<MessageView>,
    max_tokens: nat,
)
    ensures
        window(model, Some(system), h, max_tokens).len() > 0,
        window(model, Some(system), h, max_tokens)[0] == system,
{
}

/// The index of the task is that of the first message of the user.
pub proof fn law_task_is_first_user_message(h: Seq<MessageView>)
    ensures
        match task_index(h) {
            Some(i) => 0 <= i < h.len() && h[i].role == Role::User && forall|j: int|
                0 <= j < i ==> (#[trigger] h[j]).role != Role::User,
            None => forall|j: int| 0 <= j < h.len() ==> (#[trigger] h[j]).role != Role::User,
        },
    decreases h.len(),
{
    if h.len() > 0 {
        let t = h.drop_last();
        law_task_is_first_user_message(t);
        assert forall|j: int| 0 <= j < t.len() implies h[j] == t[j] by {}
        match task_index(t) {
            Some(i) => {
                assert(t[i] == h[i]);
                assert forall|j: int| 0 <= j < i implies (#[trigger] h[j]).role != Role::User by {
                    assert(t[j] == h[j]);
                }
            },
            None => {
                assert forall|j: int| 0 <= j < t.len() implies (#[trigger] h[j]).role
                    != Role::User by {
                    assert(t[j] == h[j]);
                }
            },
        }
    }
}

/// A text is another one, or a beginning of it, with or without the mark of a
/// cut.
pub open spec fn cut_of(cut: Seq<char>, whole: Seq<char>) -> bool {
    ||| cut == whole
    ||| cut.is_prefix_of(whole)
    ||| exists|head: Seq<char>| #[trigger] head.is_prefix_of(whole) && cut == head + marker()
}

/// Cutting a message changes nothing but its text, and of that it keeps a
/// beginning.
pub proof fn law_truncated_keeps_beginning(model: TokenModel, m: MessageView, budget: nat)
    ensures
        truncated(model, m, budget) matches Some(x) ==> {
            &&& x.role == m.role
            &&& x.tool_calls == m.tool_calls
            &&& x.tool_call_id == m.tool_call_id
            &&& cut_of(x.content, m.content)
        },
{
    if let Some(x) = truncated(model, m, budget) {
        if x != m {
            let room = less(budget, tool_call_tokens(model, m));
            let mark = (model.tokens)(marker());
            let keep = less(
                room,
                if mark > 1 {
                    mark
                } else {
                    1
                },
            );
            let take = if keep > 0 {
                (model.chars)(keep)
            } else {
                (model.chars)(room)
            };
            let head = text::trim_end(m.content.take(take as int));
            lemma_trim_end_shorter(m.content.take(take as int));
            assert(head.is_prefix_of(m.content)) by {
                assert(m.content.take(take as int).take(head.len() as int) =~= m.content.take(
                    head.len() as int,
                ));
            }
        }
    }
}

/// The task is never lost: the first message of the user follows the system
/// message in every window, whole or as a beginning of it. Tool calls in that
/// message have to leave room for text in what is set aside for it.
pub proof fn law_task_is_kept(
    system: Option<MessageView>,
    h: Seq<MessageView>,
    max_tokens: nat,
)
    requires
        task_index(h) matches Some(i) && tool_call_tokens(char_model(), h[i]) < task_reserve(
            char_model(),
            h[i],
            session_budget(char_model(), system, max_tokens),
        ),
    ensures
        ({
            let w = window(char_model(), system, h, max_tokens);
            let at = opt_seq(system).len() as int;
            let task = h[task_index(h)->0];
            &&& w.len() > at
            &&& w[at].role == Role::User
            &&& cut_of(w[at].content, task.content)
        }),
{
    let model = char_model();
    let i = task_index(h)->0;
    law_task_is_first_user_message(h);
    let budget = session_budget(model, system, max_tokens);
    let reserve = task_reserve(model, h[i], budget);
    reveal_strlit("\n…[truncated]");
    assert((model.tokens)(marker()) == 3);
    law_truncated_keeps_beginning(model, h[i], reserve);
    assert(truncated(model, h[i], reserve) is Some);
}

/// The history without the message at an index.
pub open spec fn without(h: Seq<MessageView>, skip: Option<int>) -> Seq<MessageView> {
    match skip {
        Some(i) => if 0 <= i < h.len() {
            h.take(i) + h.skip(i + 1)
        } else {
            h
        },
        None => h,
    }
}

/// A list is the message before index `k`, cut, and all from there on.
pub open spec fn cut_then_tail(
    model: TokenModel,
    rest: Seq<MessageView>,
    k: int,
    left: nat,
    r: Seq<MessageView>,
) -> bool {
    k > 0 && (truncated(model, rest[k - 1], left) matches Some(x) && r == seq![x] + rest.skip(k))
}

/// The oldest messages go first: the window of recent messages is a tail of the
/// history, before which one more message may stand that was cut.
pub proof fn law_recent_is_a_tail(
    model: TokenModel,
    h: Seq<MessageView>,
    skip: Option<int>,
    remaining: nat,
)
    ensures
        ({
            let rest = without(h, skip);
            let r = recent(model, h, skip, remaining);
            exists|k: int|
                0 <= k <= rest.len() && (r == #[trigger] rest.skip(k) || exists|left: nat|
                    cut_then_tail(model, rest, k, left, r))
        }),
    decreases h.len(),
{
    let rest = without(h, skip);
    let r = recent(model, h, skip, remaining);
    if h.len() == 0 {
        assert(r =~= rest.skip(0));
    } else {
        let t = h.drop_last();
        if skip == Some(h.len() - 1) {
            assert(rest =~= t);
            assert(without(t, skip) =~= t);
            law_recent_is_a_tail(model, t, skip, remaining);
        } else {
            let tail = without(t, skip);
            assert(rest =~= tail.push(h.last()));
            let size = message_tokens(model, h.last());
            if size <= remaining {
                let left0 = (remaining - size) as nat;
                law_recent_is_a_tail(model, t, skip, left0);
                let r0 = recent(model, t, skip, left0);
                let k = choose|k: int|
                    0 <= k <= tail.len() && (r0 == #[trigger] tail.skip(k) || exists|left: nat|
                        cut_then_tail(model, tail, k, left, r0));
                assert(rest.skip(k) =~= tail.skip(k).push(h.last()));
                if r0 == tail.skip(k) {
                    assert(r == rest.skip(k));
                } else {
                    let left = choose|left: nat| cut_then_tail(model, tail, k, left, r0);
                    let x = truncated(model, tail[k - 1], left)->0;
                    assert(rest[k - 1] == tail[k - 1]);
                    assert(r =~= seq![x] + rest.skip(k));
                    assert(cut_then_tail(model, rest, k, left, r));
                }
            } else {
                let k = rest.len() as int;
                assert(rest.skip(k) =~= Seq::empty());
                assert(rest[k - 1] == h.last());
                if remaining >= MIN_MESSAGE_SNIPPET_TOKENS {
                    if let Some(x) = truncated(model, h.last(), remaining) {
                        assert(r =~= seq![x] + rest.skip(k));
                        assert(cut_then_tail(model, rest, k, remaining, r));
                    }
                }
            }
        }
    }
}

/// The latest observation is never lost: where it fits, or where at least the
/// least piece is left and its tool calls leave room for text, the last message
/// ends the window, whole or cut.
pub proof fn law_latest_message_is_kept(
    h: Seq<MessageView>,
    skip: Option<int>,
    remaining: nat,
)
    requires
        h.len() > 0,
        skip != Some(h.len() - 1),
        ({
            ||| message_tokens(char_model(), h.last()) <= remaining
            ||| {
                &&& remaining >= MIN_MESSAGE_SNIPPET_TOKENS
                &&& tool_call_tokens(char_model(), h.last()) < remaining
            }
        }),
    ensures
        ({
            let r = recent(char_model(), h, skip, remaining);
            &&& r.len() > 0
            &&& r.last().role == h.last().role
            &&& r.last().tool_call_id == h.last().tool_call_id
            &&& cut_of(r.last().content, h.last().content)
        }),
{
    let model = char_model();
    reveal_strlit("\n…[truncated]");
    assert((model.tokens)(marker()) == 3);
    if message_tokens(model, h.last()) > remaining {
        law_truncated_keeps_beginning(model, h.last(), remaining);
        assert(truncated(model, h.last(), remaining) is Some);
    }
}

// ---------------------------------------------------------------------------
// What is left out, and what is not
// ---------------------------------------------------------------------------

/// Whether a list is what fits of some messages: all from index `k` on, which take
/// no more than a number of tokens, while the message before them would not fit
/// any more; of that message the piece that fits the tokens that are left stands
/// before them, where they are enough for a piece.
pub open spec fn fits_from(
    model: TokenModel,
    messages: Seq<MessageView>,
    remaining: nat,
    r: Seq<MessageView>,
    k: int,
) -> bool {
    let kept = messages.skip(k);
    let left = (remaining - total_tokens(model, kept)) as nat;
    &&& 0 <= k <= messages.len()
    &&& total_tokens(model, kept) <= remaining
    &&& k > 0 ==> total_tokens(model, kept) + message_tokens(model, messages[k - 1]) > remaining
    &&& k > 0 && left >= 32 ==> r == opt_seq(truncated(model, messages[k - 1], left)) + kept
    &&& k == 0 || left < 32 ==> r == kept
}

/// A message is left out of the recent ones only if it, together with all that
/// came later, takes more tokens than there are: the recent messages are all
/// from some point on, and the one before that point does not fit.
pub proof fn law_only_what_does_not_fit_is_left_out(
    model: TokenModel,
    h: Seq<MessageView>,
    skip: Option<int>,
    remaining: nat,
)
    ensures
        exists|k: int|
            #[trigger] fits_from(
                model,
                without(h, skip),
                remaining,
                recent(model, h, skip, remaining),
                k,
            ),
    decreases h.len(),
{
    let rest = without(h, skip);
    let r = recent(model, h, skip, remaining);
    if h.len() == 0 {
        assert(rest.skip(0) =~= rest);
        assert(rest =~= Seq::empty());
        assert(fits_from(model, rest, remaining, r, 0));
    } else if skip == Some(h.len() - 1) {
        let t = h.drop_last();
        assert(rest =~= t);
        assert(without(t, skip) =~= t);
        law_only_what_does_not_fit_is_left_out(model, t, skip, remaining);
    } else {
        let t = h.drop_last();
        let tail = without(t, skip);
        assert(rest =~= tail.push(h.last()));
        let size = message_tokens(model, h.last());
        if size <= remaining {
            let left = (remaining - size) as nat;
            law_only_what_does_not_fit_is_left_out(model, t, skip, left);
            let r0 = recent(model, t, skip, left);
            let k = choose|k: int| #[trigger] fits_from(model, tail, left, r0, k);
            assert(rest.skip(k) =~= tail.skip(k).push(h.last()));
            assert(rest.skip(k).drop_last() =~= tail.skip(k));
            if k > 0 {
                assert(rest[k - 1] == tail[k - 1]);
                let cut = opt_seq(truncated(model, tail[k - 1], (left - total_tokens(
                    model,
                    tail.skip(k),
                )) as nat));
                assert((cut + tail.skip(k)).push(h.last()) =~= cut + rest.skip(k));
            }
            assert(fits_from(model, rest, remaining, r, k));
        } else {
            let k = rest.len() as int;
            assert(rest.skip(k) =~= Seq::empty());
            assert(rest[k - 1] == h.last());
            assert(opt_seq(truncated(model, h.last(), remaining)) + rest.skip(k) =~= opt_seq(
                truncated(model, h.last(), remaining),
            ));
            assert(fits_from(model, rest, remaining, r, k));
        }
    }
}

proof fn lemma_total_tail(model: TokenModel, messages: Seq<MessageView>, k: int)
    requires
        0 <= k <= messages.len(),
    ensures
        total_tokens(model, messages.take(k)) + total_tokens(model, messages.skip(k))
            == total_tokens(model, messages),
{
    lemma_total_append(model, messages.take(k), messages.skip(k));
    assert(messages.take(k) + messages.skip(k) =~= messages);
}

/// Messages that fit are all kept, each as it is and in their order.
pub proof fn law_recent_messages_that_fit_are_kept(
    model: TokenModel,
    h: Seq<MessageView>,
    skip: Option<int>,
    remaining: nat,
)
    requires
        total_tokens(model, without(h, skip)) <= remaining,
    ensures
        recent(model, h, skip, remaining) == without(h, skip),
{
    let rest = without(h, skip);
    let r = recent(model, h, skip, remaining);
    law_only_what_does_not_fit_is_left_out(model, h, skip, remaining);
    let k = choose|k: int| #[trigger] fits_from(model, rest, remaining, r, k);
    if k > 0 {
        lemma_total_tail(model, rest, k - 1);
        let kept = rest.skip(k - 1);
        lemma_total_append(model, seq![rest[k - 1]], rest.skip(k));
        lemma_total_one(model, rest[k - 1]);
        assert(kept =~= seq![rest[k - 1]] + rest.skip(k));
    } else {
        assert(rest.skip(0) =~= rest);
    }
}

/// A conversation that fits is shown whole: where the system message and the
/// history together take no more tokens than there are, and the task takes no
/// more than a third of what the system message leaves, the window is the system
/// message, the task, and every other message of the history in order, each as it
/// is. A task that takes no token is counted as one.
pub proof fn law_what_fits_is_shown_whole(
    model: TokenModel,
    system: Option<MessageView>,
    h: Seq<MessageView>,
    max_tokens: nat,
)
    requires
        max_tokens <= usize::MAX,
        ({
            let first = match system {
                Some(s) => message_tokens(model, s),
                None => 0,
            };
            let budget = max_tokens - first;
            match task_index(h) {
                None => first + total_tokens(model, h) <= max_tokens,
                Some(i) => {
                    let size = message_tokens(model, h[i]);
                    &&& h[i].tool_calls is None || (model.tokens)(h[i].content) > 0
                    &&& 3 * size <= budget
                    &&& first + total_tokens(model, h) + (if size == 0 {
                        1nat
                    } else {
                        0nat
                    }) <= max_tokens
                },
            }
        }),
    ensures
        ({
            let front = match system {
                Some(s) => seq![s],
                None => Seq::empty(),
            };
            match task_index(h) {
                None => window(model, system, h, max_tokens) == front + h,
                Some(i) => window(model, system, h, max_tokens) == front.push(h[i]) + (h.take(i)
                    + h.skip(i + 1)),
            }
        }),
{
    law_task_is_first_user_message(h);
    let budget = session_budget(model, system, max_tokens);
    let front = opt_seq(system);
    match task_index(h) {
        None => {
            law_recent_messages_that_fit_are_kept(model, h, None, budget);
        },
        Some(i) => {
            let size = message_tokens(model, h[i]);
            let reserve = task_reserve(model, h[i], budget);
            assert(reserve == (if size >= 1 {
                size
            } else {
                1
            }));
            assert(truncated(model, h[i], reserve) == Some(h[i]));
            let rest = without(h, Some(i));
            lemma_total_tail(model, h, i);
            lemma_total_append(model, seq![h[i]], h.skip(i + 1));
            lemma_total_one(model, h[i]);
            assert(h.skip(i) =~= seq![h[i]] + h.skip(i + 1));
            lemma_total_append(model, h.take(i), h.skip(i + 1));
            law_recent_messages_that_fit_are_kept(model, h, Some(i), less(budget, reserve));
            assert(front + seq![h[i]] + rest =~= front.push(h[i]) + rest);
        },
    }
}

/// What is left of some tokens after others were taken from them.
pub open spec fn left_of(all: nat, taken: nat, left: nat) -> bool {
    if taken <= all {
        left + taken == all
    } else {
        left == 0
    }
}

/// A window without a task is the system message and what fits of the messages
/// into what that leaves.
pub proof fn law_a_window_without_a_task(
    model: TokenModel,
    system: Option<MessageView>,
    h: Seq<MessageView>,
    max_tokens: nat,
    budget: nat,
)
    requires
        forall|i: int| 0 <= i < h.len() ==> (#[trigger] h[i]).role != Role::User,
        match system {
            Some(s) => left_of(max_tokens, message_tokens(model, s), budget),
            None => budget == max_tokens,
        },
    ensures
        ({
            let front = match system {
                Some(s) => seq![s],
                None => Seq::empty(),
            };
            exists|k: int, r: Seq<MessageView>|
                #[trigger] fits_from(model, h, budget, r, k) && window(
                    model,
                    system,
                    h,
                    max_tokens,
                ) == front + r
        }),
{
    law_task_is_first_user_message(h);
    law_only_what_does_not_fit_is_left_out(model, h, None, budget);
    let r = recent(model, h, None, budget);
    let k = choose|k: int| #[trigger] fits_from(model, without(h, None), budget, r, k);
    assert(fits_from(model, h, budget, r, k));
}

/// A window with a task, which is the first message of the user, is the system
/// message, the task, and what fits of the other messages. Set aside for the task
/// are the tokens that it takes, at least one, but no more than a third of what
/// the system message leaves, unless that is less than one; a task that takes
/// more is cut to that.
pub proof fn law_a_window_with_a_task(
    model: TokenModel,
    system: Option<MessageView>,
    h: Seq<MessageView>,
    max_tokens: nat,
    i: int,
    budget: nat,
    aside: nat,
    left: nat,
)
    requires
        0 <= i < h.len(),
        h[i].role == Role::User,
        forall|j: int| 0 <= j < i ==> (#[trigger] h[j]).role != Role::User,
        match system {
            Some(s) => left_of(max_tokens, message_tokens(model, s), budget),
            None => budget == max_tokens,
        },
        aside >= 1,
        3 * aside <= budget || aside == 1,
        aside == message_tokens(model, h[i]) || aside < message_tokens(model, h[i]) && 3 * (aside
            + 1) > budget || aside == 1 && message_tokens(model, h[i]) == 0,
        left_of(budget, aside, left),
    ensures
        ({
            let front = match system {
                Some(s) => seq![s],
                None => Seq::empty(),
            };
            exists|k: int, r: Seq<MessageView>|
                #[trigger] fits_from(model, h.take(i) + h.skip(i + 1), left, r, k) && window(
                    model,
                    system,
                    h,
                    max_tokens,
                ) == front + opt_seq(truncated(model, h[i], aside)) + r
        }),
{
    law_task_is_first_user_message(h);
    let t = task_index(h)->0;
    assert(h[t].role == Role::User);
    assert(t == i);
    assert(aside == task_reserve(model, h[i], budget));
    law_only_what_does_not_fit_is_left_out(model, h, Some(i), left);
    let r = recent(model, h, Some(i), left);
    let k = choose|k: int| #[trigger] fits_from(model, without(h, Some(i)), left, r, k);
    assert(fits_from(model, h.take(i) + h.skip(i + 1), left, r, k));
}

/// Cutting a message keeps as much of its text as fits: a text that fits stays
/// whole; of one that does not, counted at four characters a token, all is kept
/// that fits before the mark of the cut, without the whitespace at its end; and
/// where fewer than four tokens are left, there is no mark. Nothing is left only
/// where the tool calls take all there is.
pub proof fn law_cutting_keeps_as_much_as_fits(m: MessageView, budget: nat)
    ensures
        ({
            let model = char_model();
            let taken = tool_call_tokens(model, m);
            let room = budget - taken;
            let cut = truncated(model, m, budget);
            &&& cut is None <==> room <= 0
            &&& room > 0 && m.content.len() / 4 <= room ==> cut == Some(m)
            &&& 0 < room <= 3 && m.content.len() / 4 > room ==> cut->0.content == text::trim_end(
                m.content.take(4 * room),
            )
            &&& room > 3 && m.content.len() / 4 > room && room <= usize::MAX / 4
                ==> cut->0.content == text::trim_end(m.content.take(4 * (room - 3)))
                + "\n…[truncated]"@
        }),
{
    reveal_strlit("\n…[truncated]");
    assert((char_model().tokens)(marker()) == 3);
}

/// A message takes the tokens of its text, and of its tool calls in JSON where it
/// has some.
pub proof fn law_a_message_takes_its_text_and_calls(model: TokenModel, m: MessageView)
    ensures
        m.tool_calls is None && (model.tokens)(m.content) <= usize::MAX ==> message_tokens(
            model,
            m,
        ) == (model.tokens)(m.content),
        m.tool_calls matches Some(calls) ==> ((model.tokens)(m.content) + (model.tokens)(
            calls_json(calls),
        ) <= usize::MAX ==> message_tokens(model, m) == (model.tokens)(m.content) + (
        model.tokens)(calls_json(calls))),
{
}

/// A call, member by member.
spec fn call_members(c: ToolCallView) -> Seq<(Seq<char>, Seq<char>)> {
    let head = seq![
        ("id"@, json::json_string(c.id)),
        ("name"@, json::json_string(c.name)),
        ("arguments"@, c.arguments),
    ];
    match c.original_name {
        Some(n) => head.push(("original_name"@, json::json_string(n))),
        None => head,
    }
}

#[verifier::spinoff_prover]
#[verifier::rlimit(40)]
proof fn lemma_call_members(c: ToolCallView)
    ensures
        call_json(c) == json::object_of(call_members(c)),
{
    reveal_strlit("{\"id\":");
    reveal_strlit(",\"name\":");
    reveal_strlit(",\"arguments\":");
    reveal_strlit(",\"original_name\":");
    reveal_strlit("}");
    reveal_strlit("id");
    reveal_strlit("name");
    reveal_strlit("arguments");
    reveal_strlit("original_name");
    json::lemma_plain_string("id"@);
    json::lemma_plain_string("name"@);
    json::lemma_plain_string("arguments"@);
    json::lemma_plain_string("original_name"@);
    let id = json::json_string(c.id);
    let name = json::json_string(c.name);
    let colon = seq![':'];
    let comma = seq![','];
    let m1 = seq![("id"@, id)];
    let m2 = m1.push(("name"@, name));
    let head = seq![("id"@, id), ("name"@, name), ("arguments"@, c.arguments)];
    json::lemma_inner_one("id"@, id);
    json::lemma_inner_more(m1, "name"@, name);
    json::lemma_inner_more(m2, "arguments"@, c.arguments);
    assert(m2.push(("arguments"@, c.arguments)) =~= head);
    let k1 = json::json_string("id"@) + colon;
    let k2 = comma + json::json_string("name"@) + colon;
    let k3 = comma + json::json_string("arguments"@) + colon;
    let k4 = comma + json::json_string("original_name"@) + colon;
    assert("{\"id\":"@ =~= seq!['{'] + k1);
    assert(",\"name\":"@ =~= k2);
    assert(",\"arguments\":"@ =~= k3);
    assert(",\"original_name\":"@ =~= k4);
    assert("}"@ =~= seq!['}']);
    let base = k1 + id + k2 + name + k3 + c.arguments;
    assert(json::inner(head) =~= base);
    let last = match c.original_name {
        Some(n) => k4 + json::json_string(n),
        None => Seq::empty(),
    };
    if let Some(n) = c.original_name {
        json::lemma_inner_more(head, "original_name"@, json::json_string(n));
    }
    assert(json::inner(call_members(c)) =~= base + last);
    assert(call_json(c) =~= seq!['{'] + base + last + seq!['}']);
    assert(json::object_of(call_members(c)) =~= seq!['{'] + (base + last) + seq!['}']);
}

/// What is counted of a tool call is all of it: its identifier, its name and its
/// arguments, and the other name that it has, if any.
pub proof fn law_counted_calls_are_whole(c: ToolCallView)
    requires
        json::is_value(c.arguments),
    ensures
        ({
            let s = call_json(c);
            &&& json::text_member(s, "id"@) == Some(c.id)
            &&& json::text_member(s, "name"@) == Some(c.name)
            &&& json::value_member(s, "arguments"@) == Some(c.arguments)
            &&& c.original_name matches Some(n) ==> json::text_member(s, "original_name"@) == Some(
                n,
            )
        }),
{
    lemma_call_member(c, 0);
    lemma_call_member(c, 1);
    lemma_call_member(c, 2);
    let s = call_json(c);
    json::lemma_text_member(s, "id"@, c.id);
    json::lemma_text_member(s, "name"@, c.name);
    if let Some(n) = c.original_name {
        lemma_call_member(c, 3);
        json::lemma_text_member(s, "original_name"@, n);
    }
}

proof fn lemma_call_member(c: ToolCallView, n: int)
    requires
        json::is_value(c.arguments),
        0 <= n < call_members(c).len(),
    ensures
        json::value_member(call_json(c), call_members(c)[n].0) == Some(call_members(c)[n].1),
{
    lemma_call_members(c);
    reveal_strlit("id");
    reveal_strlit("name");
    reveal_strlit("arguments");
    reveal_strlit("original_name");
    assert("id"@.len() == 2 && "name"@.len() == 4 && "arguments"@.len() == 9);
    assert("original_name"@.len() == 13);
    json::lemma_passes_string(c.id, 0);
    json::lemma_passes_string(c.name, 0);
    assert(json::passes(c.arguments, 0));
    if let Some(o) = c.original_name {
        json::lemma_passes_string(o, 0);
    }
    let members = call_members(c);
    assert forall|k: int| 0 <= k < members.len() implies json::passes(
        (#[trigger] members[k]).1,
        0,
    ) by {}
    json::law_objects_are_read_back(members, n);
}

/// What is counted of the tool calls of a message is each of them, in order.
pub proof fn law_every_call_is_counted(calls: Seq<ToolCallView>, i: int)
    requires
        0 <= i < calls.len(),
    ensures
        text::holds(calls_json(calls), call_json(calls[i])),
        calls_json(calls).len() > call_json(calls[i]).len(),
{
    let texts = calls.map_values(|c: ToolCallView| call_json(c));
    reveal_strlit("[");
    reveal_strlit("]");
    text::law_joining_keeps_every_part(texts, ","@, i);
    let inside = text::join(texts, ","@);
    let x = call_json(calls[i]);
    assert(texts[i] == x);
    text::lemma_holds_on(inside, "["@, x);
    text::lemma_holds_on("["@ + inside, "]"@, x);
    let (a, b) = choose|a: Seq<char>, b: Seq<char>| inside == #[trigger] (a + x + b);
}

/// Every four characters make one token, and every token stands for four
/// characters, as far as `usize` reaches.
pub proof fn law_four_characters_make_a_token(e: CharBasedEstimator, t: Seq<char>, n: nat)
    ensures
        4 * e.tokens(t) <= t.len() < 4 * (e.tokens(t) + 1),
        4 * n <= usize::MAX ==> e.chars(n) == 4 * n,
        4 * n > usize::MAX ==> e.chars(n) == usize::MAX,
        (char_model().tokens)(t) == e.tokens(t),
        (char_model().chars)(n) == e.chars(n),
        t.len() == e.chars(n) && 4 * n <= usize::MAX ==> e.tokens(t) == n,
{
}

} // verus!
