//! Dispatch of local user input to outbound wire commands.
//!
//! An input line is tokenized on whitespace; the first token is the verb.
//! A recognized verb with enough arguments yields one outbound wire line;
//! one with too few yields that verb's usage text and no write; `help`
//! yields every usage text; an unrecognized verb yields a notice. Only
//! `/quit` ends the session.

use crate::framer::emit_of;
use crate::wire::{seq_views, wire_of, wire_line, append_bytes, SP, CR, LF};
use vstd::prelude::*;
use vstd::slice::slice_to_vec;
use vstd::string::StringSliceAdditionalSpecFns;

verus! {

/// The ASCII horizontal-tab byte.
pub const TAB: u8 = 9;

/// The number of entries in the command registry.
pub const REG_LEN: usize = 8;

/// A byte that separates tokens of an input line.
pub open spec fn is_space(b: u8) -> bool {
    b == SP || b == TAB || b == CR || b == LF
}

/// The whitespace-separated tokens of an input line, `cur` being a token
/// prefix already accumulated. Empty tokens do not arise.
pub open spec fn token_feed(cur: Seq<u8>, s: Seq<u8>) -> Seq<Seq<u8>>
    decreases s.len(),
{
    if s.len() == 0 {
        emit_of(cur)
    } else if is_space(s[0]) {
        emit_of(cur) + token_feed(Seq::empty(), s.drop_first())
    } else {
        token_feed(cur.push(s[0]), s.drop_first())
    }
}

/// The whitespace-separated tokens of an input line.
pub open spec fn tokens_of(s: Seq<u8>) -> Seq<Seq<u8>> {
    token_feed(Seq::empty(), s)
}

/// Whether two byte slices hold the same bytes.
pub fn bytes_eq(a: &[u8], b: &[u8]) -> (r: bool)
    ensures
        r == (a@ == b@),
{
    if a.len() != b.len() {
        return false;
    }
    let mut k: usize = 0;
    while k < a.len()
        invariant
            k <= a@.len(),
            a@.len() == b@.len(),
            forall|i: int| 0 <= i < k ==> a@[i] == b@[i],
        decreases a@.len() - k,
    {
        if a[k] != b[k] {
            return false;
        }
        k = k + 1;
    }
    proof {
        assert(a@ =~= b@);
    }
    true
}

/// Splits an input line into its whitespace-separated tokens.
pub fn tokenize(line: &[u8]) -> (toks: Vec<Vec<u8>>)
    ensures
        seq_views(toks@) == tokens_of(line@),
{
    let mut toks: Vec<Vec<u8>> = Vec::new();
    let mut cur: Vec<u8> = Vec::new();
    let mut k: usize = 0;
    proof {
        assert(line@.skip(0) =~= line@);
        assert(seq_views(toks@) =~= Seq::<Seq<u8>>::empty());
    }
    while k < line.len()
        invariant
            k <= line@.len(),
            tokens_of(line@) == seq_views(toks@) + token_feed(cur@, line@.skip(k as int)),
        decreases line@.len() - k,
    {
        let ghost rest = line@.skip(k as int);
        let ghost pre_toks = toks@;
        let ghost pre_cur = cur@;
        proof {
            assert(rest[0] == line@[k as int]);
            assert(rest.drop_first() =~= line@.skip(k as int + 1));
        }
        let b = line[k];
        if b == SP || b == TAB || b == CR || b == LF {
            if cur.len() > 0 {
                let t = slice_to_vec(cur.as_slice());
                cur.clear();
                proof {
                    assert(seq_views(pre_toks.push(t)) =~= seq_views(pre_toks).push(t@));
                }
                toks.push(t);
                proof {
                    assert(emit_of(pre_cur) =~= seq![pre_cur]);
                    assert(seq_views(pre_toks) + (seq![pre_cur] + token_feed(
                        Seq::empty(),
                        rest.drop_first(),
                    )) =~= seq_views(pre_toks).push(pre_cur) + token_feed(
                        Seq::empty(),
                        rest.drop_first(),
                    ));
                }
            } else {
                proof {
                    assert(emit_of(pre_cur) =~= Seq::<Seq<u8>>::empty());
                    assert(Seq::<Seq<u8>>::empty() + token_feed(Seq::empty(), rest.drop_first())
                        =~= token_feed(Seq::empty(), rest.drop_first()));
                    assert(cur@ =~= Seq::<u8>::empty());
                }
            }
        } else {
            cur.push(b);
        }
        k = k + 1;
    }
    proof {
        assert(line@.skip(line@.len() as int) =~= Seq::<u8>::empty());
    }
    if cur.len() > 0 {
        proof {
            assert(seq_views(toks@.push(cur)) =~= seq_views(toks@).push(cur@));
        }
        toks.push(cur);
    }
    proof {
        assert(seq_views(toks@) =~= tokens_of(line@));
    }
    toks
}

/// Whether the interactive session goes on after a dispatched line.
#[derive(Clone, Copy, Debug, PartialEq, Eq, Structural)]
pub enum Flow {
    Continue,
    Quit,
}

/// What one dispatched input line produced: the session flow, at most one
/// outbound wire line, and the notices to show locally.
pub struct DispatchResult {
    pub flow: Flow,
    pub outbound: Option<Vec<u8>>,
    pub notices: Vec<Vec<u8>>,
}

/// The mathematical outcome of dispatching one input line.
pub struct Outcome {
    pub quit: bool,
    pub outbound: Option<Seq<u8>>,
    pub notices: Seq<Seq<u8>>,
}

/// An outcome that writes one wire line and goes on.
pub open spec fn cont_write(w: Seq<u8>) -> Outcome {
    Outcome { quit: false, outbound: Some(w), notices: Seq::empty() }
}

/// An outcome that writes nothing, shows one notice, and goes on.
pub open spec fn cont_notice(n: Seq<u8>) -> Outcome {
    Outcome { quit: false, outbound: None, notices: seq![n] }
}

/// Every usage text of the registry, in registry order.
pub open spec fn all_usages() -> Seq<Seq<u8>> {
    Seq::new(REG_LEN as nat, |i: int| reg_usage(i))
}

/// The notice shown for an unrecognized verb.
pub open spec fn unrec_notice(verb: Seq<u8>) -> Seq<u8> {
    "Unrecognized command: ".spec_bytes() + verb
}

/// The tokens joined back into one line with single spaces.
pub open spec fn join_spaced(ts: Seq<Seq<u8>>) -> Seq<u8>
    decreases ts.len(),
{
    if ts.len() == 0 {
        Seq::empty()
    } else if ts.len() == 1 {
        ts[0]
    } else {
        ts[0] + seq![SP] + join_spaced(ts.drop_first())
    }
}

/// Appending a token to a joined line appends a space and the token, the
/// first token excepted.
pub proof fn lemma_join_push(ts: Seq<Seq<u8>>, t: Seq<u8>)
    ensures
        ts.len() == 0 ==> join_spaced(ts.push(t)) == t,
        ts.len() > 0 ==> join_spaced(ts.push(t)) == join_spaced(ts) + seq![SP] + t,
    decreases ts.len(),
{
    if ts.len() == 0 {
        assert(ts.push(t)[0] == t);
    } else {
        lemma_join_push(ts.drop_first(), t);
        assert(ts.push(t).drop_first() =~= ts.drop_first().push(t));
        assert(ts.push(t)[0] == ts[0]);
        if ts.len() == 1 {
            assert(join_spaced(ts.push(t)) == ts[0] + seq![SP] + t);
        } else {
            assert(ts[0] + seq![SP] + (join_spaced(ts.drop_first()) + seq![SP] + t) =~= (ts[0]
                + seq![SP] + join_spaced(ts.drop_first())) + seq![SP] + t);
        }
    }
}

/// The outcome `dispatch` owes for an input line, stated over its tokens.
pub open spec fn dispatch_spec(line: Seq<u8>) -> Outcome {
    let toks = tokens_of(line);
    if toks.len() == 0 {
        cont_notice(unrec_notice(Seq::empty()))
    } else {
        let v = toks[0];
        if v == "help".spec_bytes() {
            Outcome { quit: false, outbound: None, notices: all_usages() }
        } else if v == "/quit".spec_bytes() {
            Outcome {
                quit: true,
                outbound: Some(wire_of("QUIT".spec_bytes(), Seq::empty())),
                notices: Seq::empty(),
            }
        } else if v == "/join".spec_bytes() {
            if toks.len() >= 2 {
                cont_write(wire_of("JOIN".spec_bytes(), toks[1]))
            } else {
                cont_notice(reg_usage(1))
            }
        } else if v == "/part".spec_bytes() {
            if toks.len() >= 2 {
                cont_write(wire_of("PART".spec_bytes(), toks[1]))
            } else {
                cont_notice(reg_usage(2))
            }
        } else if v == "/nick".spec_bytes() {
            if toks.len() >= 2 {
                cont_write(wire_of("NICK".spec_bytes(), toks[1]))
            } else {
                cont_notice(reg_usage(3))
            }
        } else if v == "/msg".spec_bytes() {
            if toks.len() >= 3 {
                cont_write(
                    wire_of(
                        "PRIVMSG".spec_bytes(),
                        toks[1] + " :".spec_bytes() + join_spaced(toks.skip(2)),
                    ),
                )
            } else {
                cont_notice(reg_usage(4))
            }
        } else if v == "/topic".spec_bytes() {
            if toks.len() >= 3 {
                cont_write(wire_of("TOPIC".spec_bytes(), toks[1] + seq![SP] + toks[2]))
            } else {
                cont_notice(reg_usage(5))
            }
        } else if v == "/list".spec_bytes() {
            cont_write(
                wire_of(
                    "LIST".spec_bytes(),
                    if toks.len() >= 2 {
                        toks[1]
                    } else {
                        Seq::<u8>::empty()
                    },
                ),
            )
        } else if v == "/names".spec_bytes() {
            cont_write(
                wire_of(
                    "NAMES".spec_bytes(),
                    if toks.len() >= 2 {
                        toks[1]
                    } else {
                        Seq::<u8>::empty()
                    },
                ),
            )
        } else {
            cont_notice(unrec_notice(v))
        }
    }
}

/// Whether an executable dispatch result carries exactly a mathematical
/// outcome.
pub open spec fn result_matches(r: DispatchResult, o: Outcome) -> bool {
    &&& (r.flow is Quit) == o.quit
    &&& (r.outbound is Some) == (o.outbound is Some)
    &&& (r.outbound is Some ==> r.outbound->0@ == o.outbound->0)
    &&& seq_views(r.notices@) == o.notices
}

/// A result that goes on with one notice and no write.
fn notice_result(n: Vec<u8>) -> (r: DispatchResult)
    ensures
        result_matches(r, cont_notice(n@)),
{
    let mut notices: Vec<Vec<u8>> = Vec::new();
    proof {
        assert(seq_views(notices@.push(n)) =~= seq![n@]);
    }
    notices.push(n);
    DispatchResult { flow: Flow::Continue, outbound: None, notices }
}

/// An empty notice list.
fn empty_notices() -> (v: Vec<Vec<u8>>)
    ensures
        seq_views(v@) == Seq::<Seq<u8>>::empty(),
{
    let v: Vec<Vec<u8>> = Vec::new();
    proof {
        assert(seq_views(v@) =~= Seq::<Seq<u8>>::empty());
    }
    v
}

/// One entry of the command registry: the verb, the minimum argument count
/// (the verb itself excluded), and the usage text shown when the count is
/// unmet.
pub struct CommandInfo {
    pub name: Vec<u8>,
    pub min_args: usize,
    pub usage: Vec<u8>,
}

/// The verb of the registry entry at `i`.
pub open spec fn reg_name(i: int) -> Seq<u8> {
    if i == 0 {
        "/quit".spec_bytes()
    } else if i == 1 {
        "/join".spec_bytes()
    } else if i == 2 {
        "/part".spec_bytes()
    } else if i == 3 {
        "/nick".spec_bytes()
    } else if i == 4 {
        "/msg".spec_bytes()
    } else if i == 5 {
        "/topic".spec_bytes()
    } else if i == 6 {
        "/list".spec_bytes()
    } else {
        "/names".spec_bytes()
    }
}

/// The minimum argument count of the registry entry at `i`.
pub open spec fn reg_min(i: int) -> nat {
    if i == 1 || i == 2 || i == 3 {
        1
    } else if i == 4 || i == 5 {
        2
    } else {
        0
    }
}

/// The usage text of the registry entry at `i`.
pub open spec fn reg_usage(i: int) -> Seq<u8> {
    if i == 0 {
        "Command: /quit".spec_bytes()
    } else if i == 1 {
        "Command: /join Parameters: <channel>".spec_bytes()
    } else if i == 2 {
        "Command: /part Parameters: <channel>".spec_bytes()
    } else if i == 3 {
        "Command: /nick Parameters: <nickname>".spec_bytes()
    } else if i == 4 {
        "Command: /msg Parameters: <receiver> <text>".spec_bytes()
    } else if i == 5 {
        "Command: /topic Parameters: <channel> <topic>".spec_bytes()
    } else if i == 6 {
        "Command: /list Parameters: <channel>".spec_bytes()
    } else {
        "Command: /names Parameters: <channel>".spec_bytes()
    }
}

/// The session's configuration: the nickname and server chosen at startup,
/// and the immutable command registry.
pub struct Client {
    pub nick: String,
    pub server: String,
    pub commands: Vec<CommandInfo>,
}

/// Builds one registry entry.
fn entry(name: &str, min_args: usize, usage: &str) -> (e: CommandInfo)
    ensures
        e.name@ == name.spec_bytes(),
        e.min_args == min_args,
        e.usage@ == usage.spec_bytes(),
{
    CommandInfo { name: slice_to_vec(name.as_bytes()), min_args, usage: slice_to_vec(
        usage.as_bytes(),
    ) }
}

impl Client {
    /// A well-formed client: the registry holds exactly the fixed command
    /// table.
    pub open spec fn wf(&self) -> bool {
        &&& self.commands@.len() == REG_LEN
        &&& forall|i: int|
            0 <= i < REG_LEN ==> {
                &&& (#[trigger] self.commands@[i]).name@ == reg_name(i)
                &&& self.commands@[i].min_args == reg_min(i)
                &&& self.commands@[i].usage@ == reg_usage(i)
            }
    }

    /// A client for the given nickname and server, with the fixed command
    /// registry.
    pub fn new(nick: String, server: String) -> (c: Client)
        ensures
            c.wf(),
            c.nick@ == nick@,
            c.server@ == server@,
    {
        let mut commands: Vec<CommandInfo> = Vec::new();
        commands.push(entry("/quit", 0, "Command: /quit"));
        commands.push(entry("/join", 1, "Command: /join Parameters: <channel>"));
        commands.push(entry("/part", 1, "Command: /part Parameters: <channel>"));
        commands.push(entry("/nick", 1, "Command: /nick Parameters: <nickname>"));
        commands.push(entry("/msg", 2, "Command: /msg Parameters: <receiver> <text>"));
        commands.push(entry("/topic", 2, "Command: /topic Parameters: <channel> <topic>"));
        commands.push(entry("/list", 0, "Command: /list Parameters: <channel>"));
        commands.push(entry("/names", 0, "Command: /names Parameters: <channel>"));
        let c = Client { nick, server, commands };
        proof {
            assert forall|i: int| 0 <= i < REG_LEN implies {
                &&& (#[trigger] c.commands@[i]).name@ == reg_name(i)
                &&& c.commands@[i].min_args == reg_min(i)
                &&& c.commands@[i].usage@ == reg_usage(i)
            } by {
                assert(c.commands@[i] == c.commands@.index(i));
            }
        }
        c
    }

    /// Dispatches one line of local input: at most one outbound wire line,
    /// zero or more local notices, and whether the session goes on.
    pub fn dispatch(&self, line: &[u8]) -> (r: DispatchResult)
        requires
            self.wf(),
        ensures
            result_matches(r, dispatch_spec(line@)),
    {
        let toks = tokenize(line);
        let ghost stoks = tokens_of(line@);
        if toks.len() == 0 {
            let mut n: Vec<u8> = Vec::new();
            append_bytes(&mut n, "Unrecognized command: ".as_bytes());
            proof {
                assert(n@ =~= unrec_notice(Seq::empty()));
            }
            return notice_result(n);
        }
        proof {
            assert(stoks[0] == toks@[0]@);
        }
        if bytes_eq(toks[0].as_slice(), "help".as_bytes()) {
            let mut notices: Vec<Vec<u8>> = Vec::new();
            let mut k: usize = 0;
            proof {
                assert(seq_views(notices@) =~= all_usages().take(0));
            }
            while k < REG_LEN
                invariant
                    self.wf(),
                    k <= REG_LEN,
                    seq_views(notices@) == all_usages().take(k as int),
                decreases REG_LEN - k,
            {
                let u = slice_to_vec(self.commands[k].usage.as_slice());
                proof {
                    assert(seq_views(notices@.push(u)) =~= seq_views(notices@).push(u@));
                    assert(all_usages().take(k as int + 1) =~= all_usages().take(k as int).push(
                        reg_usage(k as int),
                    ));
                }
                notices.push(u);
                k = k + 1;
            }
            proof {
                assert(all_usages().take(REG_LEN as int) =~= all_usages());
            }
            DispatchResult { flow: Flow::Continue, outbound: None, notices }
        } else if bytes_eq(toks[0].as_slice(), "/quit".as_bytes()) {
            let empty: Vec<u8> = Vec::new();
            let w = wire_line("QUIT", empty.as_slice());
            DispatchResult { flow: Flow::Quit, outbound: Some(w), notices: empty_notices() }
        } else if bytes_eq(toks[0].as_slice(), "/join".as_bytes()) {
            self.single_arg_cmd(1, "JOIN", &toks)
        } else if bytes_eq(toks[0].as_slice(), "/part".as_bytes()) {
            self.single_arg_cmd(2, "PART", &toks)
        } else if bytes_eq(toks[0].as_slice(), "/nick".as_bytes()) {
            self.single_arg_cmd(3, "NICK", &toks)
        } else if bytes_eq(toks[0].as_slice(), "/msg".as_bytes()) {
            if self.verify(self.commands[4].min_args + 1, &toks).is_some() {
                let mut payload: Vec<u8> = Vec::new();
                append_bytes(&mut payload, toks[1].as_slice());
                append_bytes(&mut payload, " :".as_bytes());
                append_bytes(&mut payload, toks[2].as_slice());
                proof {
                    assert(stoks[1] == toks@[1]@);
                    assert(stoks[2] == toks@[2]@);
                    assert(seq_views(toks@).subrange(2, 3) =~= seq![toks@[2]@]);
                }
                let mut k: usize = 3;
                while k < toks.len()
                    invariant
                        3 <= k <= toks@.len(),
                        payload@ == toks@[1]@ + " :".spec_bytes() + join_spaced(
                            seq_views(toks@).subrange(2, k as int),
                        ),
                    decreases toks@.len() - k,
                {
                    let ghost pre = seq_views(toks@).subrange(2, k as int);
                    payload.push(SP);
                    append_bytes(&mut payload, toks[k].as_slice());
                    proof {
                        lemma_join_push(pre, toks@[k as int]@);
                        assert(pre.push(toks@[k as int]@) =~= seq_views(toks@).subrange(
                            2,
                            k as int + 1,
                        ));
                        assert(pre.len() > 0);
                    }
                    k = k + 1;
                }
                proof {
                    assert(seq_views(toks@).subrange(2, toks@.len() as int) =~= stoks.skip(2));
                }
                let w = wire_line("PRIVMSG", payload.as_slice());
                DispatchResult { flow: Flow::Continue, outbound: Some(w), notices: empty_notices() }
            } else {
                notice_result(slice_to_vec(self.commands[4].usage.as_slice()))
            }
        } else if bytes_eq(toks[0].as_slice(), "/topic".as_bytes()) {
            if self.verify(self.commands[5].min_args + 1, &toks).is_some() {
                let mut payload: Vec<u8> = Vec::new();
                append_bytes(&mut payload, toks[1].as_slice());
                payload.push(SP);
                append_bytes(&mut payload, toks[2].as_slice());
                proof {
                    assert(stoks[1] == toks@[1]@);
                    assert(stoks[2] == toks@[2]@);
                    assert(payload@ =~= stoks[1] + seq![SP] + stoks[2]);
                }
                let w = wire_line("TOPIC", payload.as_slice());
                DispatchResult { flow: Flow::Continue, outbound: Some(w), notices: empty_notices() }
            } else {
                notice_result(slice_to_vec(self.commands[5].usage.as_slice()))
            }
        } else if bytes_eq(toks[0].as_slice(), "/list".as_bytes()) {
            self.optional_arg_cmd("LIST", &toks)
        } else if bytes_eq(toks[0].as_slice(), "/names".as_bytes()) {
            self.optional_arg_cmd("NAMES", &toks)
        } else {
            let mut n: Vec<u8> = Vec::new();
            append_bytes(&mut n, "Unrecognized command: ".as_bytes());
            append_bytes(&mut n, toks[0].as_slice());
            notice_result(n)
        }
    }

    /// One dispatch arm for a verb that takes exactly one argument: the
    /// registry entry at `idx` validates the count, `cmd` is the wire verb.
    fn single_arg_cmd(&self, idx: usize, cmd: &str, toks: &Vec<Vec<u8>>) -> (r: DispatchResult)
        requires
            self.wf(),
            1 <= idx < REG_LEN,
            reg_min(idx as int) == 1,
            toks@.len() >= 1,
        ensures
            toks@.len() >= 2 ==> result_matches(
                r,
                cont_write(wire_of(cmd.spec_bytes(), seq_views(toks@)[1])),
            ),
            toks@.len() < 2 ==> result_matches(r, cont_notice(reg_usage(idx as int))),
    {
        if self.verify(self.commands[idx].min_args + 1, toks).is_some() {
            proof {
                assert(seq_views(toks@)[1] == toks@[1]@);
            }
            let w = wire_line(cmd, toks[1].as_slice());
            DispatchResult { flow: Flow::Continue, outbound: Some(w), notices: empty_notices() }
        } else {
            notice_result(slice_to_vec(self.commands[idx].usage.as_slice()))
        }
    }

    /// One dispatch arm for a verb whose single argument is optional: the
    /// payload is the argument when present, empty otherwise.
    fn optional_arg_cmd(&self, cmd: &str, toks: &Vec<Vec<u8>>) -> (r: DispatchResult)
        requires
            toks@.len() >= 1,
        ensures
            result_matches(
                r,
                cont_write(
                    wire_of(
                        cmd.spec_bytes(),
                        if seq_views(toks@).len() >= 2 {
                            seq_views(toks@)[1]
                        } else {
                            Seq::<u8>::empty()
                        },
                    ),
                ),
            ),
    {
        let w = if toks.len() >= 2 {
            proof {
                assert(seq_views(toks@)[1] == toks@[1]@);
            }
            wire_line(cmd, toks[1].as_slice())
        } else {
            let empty: Vec<u8> = Vec::new();
            wire_line(cmd, empty.as_slice())
        };
        DispatchResult { flow: Flow::Continue, outbound: Some(w), notices: empty_notices() }
    }

    /// Whether a tokenized input holds at least `params` tokens, the verb
    /// included: the argument-count validation of one dispatch step.
    pub fn verify(&self, params: usize, msg: &Vec<Vec<u8>>) -> (r: Option<()>)
        ensures
            r is Some <==> msg@.len() >= params,
    {
        if msg.len() < params {
            None
        } else {
            Some(())
        }
    }
}

} // verus!
