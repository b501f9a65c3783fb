//! The machine model and its input state machine. A session starts in
//! plugboard-wiring mode, moves to typing mode, and ends in the terminated
//! mode. Each key event is handled by a step function that takes the current
//! state to the next one and reports the action the display should mirror;
//! the surrounding input loop and all rendering live outside the library.

use vstd::prelude::*;

use crate::config::Config;
use crate::message::{Message, content_after_add, spec_format};
use crate::plugboard::{Plugboard, lemma_connected_iff_contains};
use crate::rotor::{Rotor, advance_offset, lemma_forward_symbol};
use crate::{MAX_PLUGS, is_alphabet_char, is_symbol, spec_upper, symbol_at, symbol_index, to_upper};

verus! {

/// The input state machine's modes.
#[derive(Debug, Clone, Copy, PartialEq, Eq, Structural)]
pub enum Mode {
    /// Wiring the plugboard, one letter pair at a time.
    WiringPlugboard,
    /// Typing: keys are enciphered and recorded.
    Typing,
    /// The session is over.
    Terminated,
}

/// One key event, as the machine model sees it.
#[derive(Debug, Clone, Copy, PartialEq, Eq, Structural)]
pub enum Key {
    /// A printable character key.
    Char(char),
    /// The commit / abort-pending signal.
    Enter,
    /// The cancel / quit signal.
    Esc,
    /// Anything else; always ignored.
    Other,
}

/// What a handled key asks the display and the output sink to do.
#[derive(Debug)]
pub enum Action {
    /// Nothing: the key was ignored or only changed the mode.
    Ignored,
    /// An initial plug was marked at this symbol.
    PendingPlugMarked(char),
    /// A plug pair was completed between these two symbols.
    PlugPairAdded(char, char),
    /// Wiring ended; a pending unpaired plug, if any, is discarded.
    PendingPlugDiscarded(Option<char>),
    /// All plug connections were cancelled.
    PlugboardCleared,
    /// A symbol was enciphered: the pressed symbol and the lamp it lit.
    Enciphered(char, char),
    /// One rotor was manually advanced.
    RotorTurned(usize),
    /// The message was committed: write this formatted text to the sink.
    Committed(String),
    /// The session ended.
    Quit,
}

/// The offsets of a bank of rotors, slowest first.
pub open spec fn offsets_of(rotors: Seq<Rotor>) -> Seq<int> {
    Seq::new(rotors.len(), |i: int| rotors[i].spec_offset())
}

/// Whether the odometer carry reaches rotor `i`: every faster rotor is about
/// to complete a revolution. The fastest rotor (the last) always advances.
pub open spec fn carry_into(offs: Seq<int>, i: int) -> bool {
    forall|j: int| i < j < offs.len() ==> offs[j] == 25
}

/// One odometer step over a bank of offsets: the fastest advances, and each
/// rotor the carry reaches advances with it.
pub open spec fn step_offsets(offs: Seq<int>) -> Seq<int> {
    Seq::new(offs.len(), |i: int| if carry_into(offs, i) {
        advance_offset(offs[i])
    } else {
        offs[i]
    })
}

/// `n` odometer steps.
pub open spec fn step_offsets_n(offs: Seq<int>, n: nat) -> Seq<int>
    decreases n,
{
    if n == 0 {
        offs
    } else {
        step_offsets(step_offsets_n(offs, (n - 1) as nat))
    }
}

/// The forward pass of the signal path: through the rotors from fastest
/// (last) to slowest (first).
pub open spec fn forward_pass(rotors: Seq<Rotor>, c: char) -> char
    decreases rotors.len(),
{
    if rotors.len() == 0 {
        c
    } else {
        rotors.first().forward_spec(forward_pass(rotors.drop_first(), c))
    }
}

/// The reverse pass of the signal path: through the rotors from slowest
/// (first) to fastest (last).
pub open spec fn reverse_pass(rotors: Seq<Rotor>, c: char) -> char
    decreases rotors.len(),
{
    if rotors.len() == 0 {
        c
    } else {
        reverse_pass(rotors.drop_first(), rotors.first().reverse_spec(c))
    }
}

/// The whole signal path for one key: plugboard, rotors forward, reflector,
/// rotors in reverse, plugboard again.
pub open spec fn spec_encipher(
    plugboard: Plugboard,
    rotors: Seq<Rotor>,
    reflector: Option<Rotor>,
    c: char,
) -> char {
    let p1 = plugboard.spec_permutation(c);
    let f = forward_pass(rotors, p1);
    let refl = match reflector {
        Some(r) => r.forward_spec(f),
        None => f,
    };
    let rev = reverse_pass(rotors, refl);
    plugboard.spec_permutation(rev)
}

/// The wiring-mode transition for one character key: an unused symbol either
/// becomes the pending initial plug or completes a pair with the pending one;
/// used symbols, the pending symbol itself, and non-symbols are ignored.
pub open spec fn wiring_char_step(
    pre_pb: Plugboard,
    pre_pending: Option<char>,
    c: char,
    post_pb: Plugboard,
    post_pending: Option<char>,
    a: Action,
) -> bool {
    let cu = spec_upper(c);
    if !is_symbol(cu) || pre_pb.is_connected(cu) || pre_pending == Some(cu) {
        post_pb == pre_pb && post_pending == pre_pending && a == Action::Ignored
    } else {
        match pre_pending {
            None => post_pb == pre_pb && post_pending == Some(cu)
                && a == Action::PendingPlugMarked(cu),
            Some(ic) => {
                &&& post_pb.partners() == pre_pb.partners()
                    .update(symbol_index(ic), Some(cu)).update(symbol_index(cu), Some(ic))
                &&& post_pb.spec_count() == pre_pb.spec_count() + 1
                &&& post_pending is None
                &&& a == Action::PlugPairAdded(ic, cu)
            },
        }
    }
}

/// The typing-mode transition for one character key: a digit naming a rotor
/// turns that rotor by hand, an alphabet symbol steps the odometer and is
/// enciphered and recorded, anything else is ignored.
pub open spec fn typing_char_step(
    plugboard: Plugboard,
    reflector: Option<Rotor>,
    pre_rotors: Seq<Rotor>,
    pre_msg: Message,
    c: char,
    post_rotors: Seq<Rotor>,
    post_msg: Message,
    a: Action,
) -> bool {
    let cu = spec_upper(c);
    if cu == '1' || cu == '2' || cu == '3' {
        let idx = cu as u32 - 49;
        if idx < pre_rotors.len() {
            &&& post_rotors.len() == pre_rotors.len()
            &&& forall|i: int| 0 <= i < pre_rotors.len() && i != idx
                ==> post_rotors[i] == pre_rotors[i]
            &&& post_rotors[idx].wiring() == pre_rotors[idx].wiring()
            &&& post_rotors[idx].spec_offset() == advance_offset(pre_rotors[idx].spec_offset())
            &&& post_msg == pre_msg
            &&& a == Action::RotorTurned(idx as usize)
        } else {
            post_rotors == pre_rotors && post_msg == pre_msg && a == Action::Ignored
        }
    } else if is_symbol(cu) {
        let out = spec_encipher(plugboard, post_rotors, reflector, cu);
        &&& post_rotors.len() == pre_rotors.len()
        &&& forall|i: int| 0 <= i < pre_rotors.len()
            ==> (#[trigger] post_rotors[i]).wiring() == pre_rotors[i].wiring()
        &&& offsets_of(post_rotors) == step_offsets(offsets_of(pre_rotors))
        &&& post_msg.spec_content() == content_after_add(pre_msg.spec_content(), out)
        &&& post_msg.spec_formatted() == pre_msg.spec_formatted()
        &&& a == Action::Enciphered(cu, out)
    } else {
        post_rotors == pre_rotors && post_msg == pre_msg && a == Action::Ignored
    }
}

/// The cipher machine: its rotors (slowest first), reflector, plugboard,
/// message buffer, configuration, and the input state machine's state.
pub struct EnigmaModel {
    rotors: Vec<Rotor>,
    reflector: Option<Rotor>,
    plugboard: Plugboard,
    message: Message,
    config: Config,
    mode: Mode,
    initial_plug: Option<char>,
}

impl EnigmaModel {
    /// The bank of rotors, slowest first.
    pub closed spec fn spec_rotors(self) -> Seq<Rotor> {
        self.rotors@
    }

    /// The reflector, if the machine has one.
    pub closed spec fn spec_reflector(self) -> Option<Rotor> {
        self.reflector
    }

    /// The plugboard.
    pub closed spec fn spec_plugboard(self) -> Plugboard {
        self.plugboard
    }

    /// The message buffer.
    pub closed spec fn spec_message(self) -> Message {
        self.message
    }

    /// The configuration.
    pub closed spec fn spec_config(self) -> Config {
        self.config
    }

    /// The input state machine's current mode.
    pub closed spec fn spec_mode(self) -> Mode {
        self.mode
    }

    /// The pending initial plug, if a pair is half wired.
    pub closed spec fn spec_pending(self) -> Option<char> {
        self.initial_plug
    }

    /// Well-formed machine: every rotor is well formed, the reflector never
    /// rotates, the plugboard is well formed, and a pending plug is an
    /// unconnected symbol.
    pub open spec fn wf(self) -> bool {
        &&& forall|i: int| 0 <= i < self.spec_rotors().len()
            ==> (#[trigger] self.spec_rotors()[i]).wf()
        &&& match self.spec_reflector() {
            Some(r) => r.wf() && r.spec_offset() == 0,
            None => true,
        }
        &&& self.spec_plugboard().wf()
        &&& match self.spec_pending() {
            Some(p) => is_symbol(p) && !self.spec_plugboard().is_connected(p),
            None => true,
        }
    }

    /// Assemble a machine: wiring mode, nothing pending, an empty message.
    pub fn new(
        rotors: Vec<Rotor>,
        reflector: Option<Rotor>,
        plugboard: Plugboard,
        config: Config,
    ) -> (m: EnigmaModel)
        requires
            forall|i: int| 0 <= i < rotors@.len() ==> (#[trigger] rotors@[i]).wf(),
            match reflector {
                Some(r) => r.wf() && r.spec_offset() == 0,
                None => true,
            },
            plugboard.wf(),
        ensures
            m.wf(),
            m.spec_rotors() == rotors@,
            m.spec_reflector() == reflector,
            m.spec_plugboard() == plugboard,
            m.spec_config() == config,
            m.spec_mode() == Mode::WiringPlugboard,
            m.spec_pending() == Option::<char>::None,
            m.spec_message().spec_content() == Seq::<char>::empty(),
    {
        EnigmaModel {
            rotors,
            reflector,
            plugboard,
            message: Message::new(),
            config,
            mode: Mode::WiringPlugboard,
            initial_plug: None,
        }
    }

    /// The current mode of the input state machine.
    pub fn get_mode(&self) -> (m: Mode)
        ensures
            m == self.spec_mode(),
    {
        self.mode
    }

    /// The pending initial plug, if any.
    pub fn get_pending_plug(&self) -> (p: Option<char>)
        ensures
            p == self.spec_pending(),
    {
        self.initial_plug
    }

    /// How many rotors the machine has.
    pub fn num_rotors(&self) -> (n: usize)
        ensures
            n == self.spec_rotors().len(),
    {
        self.rotors.len()
    }

    /// The recorded message, for display.
    pub fn read_message(&self) -> (r: &str)
        ensures
            r@ == self.spec_message().spec_content(),
    {
        self.message.read()
    }

    /// The plugboard's partner table, for display.
    pub fn plugboard_connections(&self) -> (r: &Vec<Option<char>>)
        ensures
            r@ == self.spec_plugboard().partners(),
    {
        self.plugboard.get_connections()
    }

    /// The symbol currently showing on the given rotor.
    pub fn get_rotor_letter(&self, rotor_num: usize) -> (c: char)
        requires
            self.wf(),
            rotor_num < self.spec_rotors().len(),
        ensures
            c == symbol_at(self.spec_rotors()[rotor_num as int].spec_offset()),
    {
        crate::index_to_char(self.rotors[rotor_num].get_offset())
    }

    /// Advance the named rotor one position; report a completed revolution.
    fn rotate(&mut self, rotor_num: usize) -> (full_rev: bool)
        requires
            old(self).wf(),
            rotor_num < old(self).spec_rotors().len(),
        ensures
            final(self).wf(),
            final(self).spec_rotors().len() == old(self).spec_rotors().len(),
            forall|i: int| 0 <= i < old(self).spec_rotors().len() && i != rotor_num
                ==> final(self).spec_rotors()[i] == old(self).spec_rotors()[i],
            final(self).spec_rotors()[rotor_num as int].wiring()
                == old(self).spec_rotors()[rotor_num as int].wiring(),
            final(self).spec_rotors()[rotor_num as int].spec_offset()
                == advance_offset(old(self).spec_rotors()[rotor_num as int].spec_offset()),
            full_rev == (final(self).spec_rotors()[rotor_num as int].spec_offset() == 0),
            final(self).spec_reflector() == old(self).spec_reflector(),
            final(self).spec_plugboard() == old(self).spec_plugboard(),
            final(self).spec_message() == old(self).spec_message(),
            final(self).spec_config() == old(self).spec_config(),
            final(self).spec_mode() == old(self).spec_mode(),
            final(self).spec_pending() == old(self).spec_pending(),
    {
        let rotor: &mut Rotor = &mut self.rotors[rotor_num];
        rotor.advance()
    }

    /// Manually advance the rotor named by a digit key ('1' names the
    /// slowest), independent of the odometer chain.
    pub fn manual_rotate(&mut self, rotor_char: char) -> (turned: usize)
        requires
            old(self).wf(),
            49 <= rotor_char as u32 <= 57,
            rotor_char as u32 - 49 < old(self).spec_rotors().len(),
        ensures
            final(self).wf(),
            turned == rotor_char as u32 - 49,
            final(self).spec_rotors().len() == old(self).spec_rotors().len(),
            forall|i: int| 0 <= i < old(self).spec_rotors().len() && i != turned
                ==> final(self).spec_rotors()[i] == old(self).spec_rotors()[i],
            final(self).spec_rotors()[turned as int].wiring()
                == old(self).spec_rotors()[turned as int].wiring(),
            final(self).spec_rotors()[turned as int].spec_offset()
                == advance_offset(old(self).spec_rotors()[turned as int].spec_offset()),
            final(self).spec_reflector() == old(self).spec_reflector(),
            final(self).spec_plugboard() == old(self).spec_plugboard(),
            final(self).spec_message() == old(self).spec_message(),
            final(self).spec_config() == old(self).spec_config(),
            final(self).spec_mode() == old(self).spec_mode(),
            final(self).spec_pending() == old(self).spec_pending(),
    {
        let rotor_num: usize = (rotor_char as u32 - 49) as usize;
        self.rotate(rotor_num);
        rotor_num
    }

    /// One odometer step: advance the fastest rotor and propagate the carry
    /// toward the slowest as long as rotors complete a revolution.
    pub fn auto_rotate(&mut self)
        requires
            old(self).wf(),
        ensures
            final(self).wf(),
            final(self).spec_rotors().len() == old(self).spec_rotors().len(),
            forall|i: int| 0 <= i < old(self).spec_rotors().len()
                ==> (#[trigger] final(self).spec_rotors()[i]).wiring()
                    == old(self).spec_rotors()[i].wiring(),
            offsets_of(final(self).spec_rotors()) == step_offsets(offsets_of(old(self).spec_rotors())),
            final(self).spec_reflector() == old(self).spec_reflector(),
            final(self).spec_plugboard() == old(self).spec_plugboard(),
            final(self).spec_message() == old(self).spec_message(),
            final(self).spec_config() == old(self).spec_config(),
            final(self).spec_mode() == old(self).spec_mode(),
            final(self).spec_pending() == old(self).spec_pending(),
    {
        let ghost orig = self.spec_rotors();
        let n: usize = self.rotors.len();
        let mut i: usize = n;
        let mut carrying: bool = true;
        while i > 0 && carrying
            invariant
                n == orig.len(),
                i <= n,
                self.spec_rotors().len() == n,
                self.spec_reflector() == old(self).spec_reflector(),
                self.spec_plugboard() == old(self).spec_plugboard(),
                self.spec_message() == old(self).spec_message(),
                self.spec_config() == old(self).spec_config(),
                self.spec_mode() == old(self).spec_mode(),
                self.spec_pending() == old(self).spec_pending(),
                self.wf(),
                // Rotors the carry has not reached yet are untouched.
                forall|k: int| 0 <= k < i ==> self.spec_rotors()[k] == orig[k],
                // Rotors behind the carry advanced exactly when it reached them.
                forall|k: int| i <= k < n
                    ==> (#[trigger] self.spec_rotors()[k]).wiring() == orig[k].wiring(),
                forall|k: int| i <= k < n
                    ==> (#[trigger] self.spec_rotors()[k]).spec_offset()
                        == if carry_into(offsets_of(orig), k) {
                            advance_offset(orig[k].spec_offset())
                        } else {
                            orig[k].spec_offset()
                        },
                // The loop runs exactly while the carry is still running.
                carrying == carry_into(offsets_of(orig), i - 1),
            decreases i,
        {
            i = i - 1;
            let full_rev: bool = self.rotate(i);
            proof {
                let offs = offsets_of(orig);
                if full_rev {
                    assert(offs[i as int] == 25);
                    assert forall|j: int| i - 1 < j < n implies offs[j] == 25 by {
                        if j > i {
                            assert(carry_into(offs, i as int));
                        }
                    }
                    assert(carry_into(offs, i as int - 1));
                } else {
                    assert(offs[i as int] != 25);
                    assert(!carry_into(offs, i as int - 1));
                }
            }
            carrying = full_rev;
        }
        proof {
            assert(offsets_of(self.spec_rotors()) =~= step_offsets(offsets_of(orig)));
        }
    }

    /// Encipher one symbol along the whole signal path and record the result
    /// in the message buffer; the rotor offsets are left alone (stepping
    /// happens before the key press).
    pub fn key_press(&mut self, c: char) -> (out: char)
        requires
            old(self).wf(),
            is_symbol(c),
        ensures
            final(self).wf(),
            out == spec_encipher(
                old(self).spec_plugboard(),
                old(self).spec_rotors(),
                old(self).spec_reflector(),
                c,
            ),
            is_symbol(out),
            final(self).spec_message().spec_content()
                == content_after_add(old(self).spec_message().spec_content(), out),
            final(self).spec_message().spec_formatted() == old(self).spec_message().spec_formatted(),
            final(self).spec_rotors() == old(self).spec_rotors(),
            final(self).spec_reflector() == old(self).spec_reflector(),
            final(self).spec_plugboard() == old(self).spec_plugboard(),
            final(self).spec_config() == old(self).spec_config(),
            final(self).spec_mode() == old(self).spec_mode(),
            final(self).spec_pending() == old(self).spec_pending(),
    {
        let ghost rs = self.spec_rotors();
        let n: usize = self.rotors.len();

        // Pass the symbol through the plugboard.
        let mut cc: char = self.plugboard.permutation(c);
        let ghost p1 = cc;

        // Pass it through the rotors in the forward direction, fastest first.
        let mut i: usize = n;
        while i > 0
            invariant
                rs == self.spec_rotors(),
                self.wf(),
                n == rs.len(),
                i <= n,
                is_symbol(cc),
                cc == forward_pass(rs.subrange(i as int, n as int), p1),
            decreases i,
        {
            i = i - 1;
            cc = self.rotors[i].forward_permutation(cc);
            proof {
                assert(rs.subrange(i as int, n as int).drop_first()
                    =~= rs.subrange(i + 1, n as int));
            }
        }
        proof {
            assert(rs.subrange(0, n as int) =~= rs);
        }

        // Fold the signal back through the reflector, if one is fitted.
        if let Some(reflector) = &self.reflector {
            cc = reflector.forward_permutation(cc);
        }
        let ghost folded = cc;

        // Pass it back through the rotors in reverse, slowest first.
        let mut i: usize = 0;
        while i < n
            invariant
                rs == self.spec_rotors(),
                self.wf(),
                n == rs.len(),
                i <= n,
                is_symbol(cc),
                cc == reverse_pass(rs.subrange(0, i as int), folded),
            decreases n - i,
        {
            proof {
                lemma_reverse_pass_push(rs.subrange(0, i as int), rs[i as int], folded);
                assert(rs.subrange(0, i + 1) =~= rs.subrange(0, i as int).push(rs[i as int]));
            }
            cc = self.rotors[i].reverse_permutation(cc);
            i = i + 1;
        }
        proof {
            assert(rs.subrange(0, n as int) =~= rs);
        }

        // Pass it through the plugboard once more and record it.
        cc = self.plugboard.permutation(cc);
        self.message.add(cc);
        cc
    }

    /// Whether `c` is already used by an existing pair or by the given
    /// pending initial plug.
    pub fn is_already_plugged(&self, c: char, initial_plug: Option<char>) -> (r: bool)
        requires
            self.wf(),
        ensures
            r == ((exists|i: int| 0 <= i < self.spec_plugboard().partners().len()
                && self.spec_plugboard().partners()[i] == Some(c))
                || initial_plug == Some(c)),
    {
        let conns: &Vec<Option<char>> = self.plugboard.get_connections();
        let n: usize = conns.len();
        let mut i: usize = 0;
        while i < n
            invariant
                n == self.spec_plugboard().partners().len(),
                i <= n,
                conns@ == self.spec_plugboard().partners(),
                forall|k: int| 0 <= k < i ==> self.spec_plugboard().partners()[k] != Some(c),
            decreases n - i,
        {
            match conns[i] {
                Some(x) => {
                    if x == c {
                        return true;
                    }
                },
                None => {},
            }
            i = i + 1;
        }
        match initial_plug {
            Some(p) => p == c,
            None => false,
        }
    }

    /// Handle one character key while wiring the plugboard: mark an initial
    /// plug or complete a pair, ignoring used symbols and non-symbols.
    pub fn handle_plugboard_char(&mut self, c: char) -> (a: Action)
        requires
            old(self).wf(),
            old(self).spec_plugboard().spec_count() < MAX_PLUGS,
        ensures
            final(self).wf(),
            wiring_char_step(
                old(self).spec_plugboard(),
                old(self).spec_pending(),
                c,
                final(self).spec_plugboard(),
                final(self).spec_pending(),
                a,
            ),
            final(self).spec_rotors() == old(self).spec_rotors(),
            final(self).spec_reflector() == old(self).spec_reflector(),
            final(self).spec_message() == old(self).spec_message(),
            final(self).spec_config() == old(self).spec_config(),
            final(self).spec_mode() == old(self).spec_mode(),
    {
        let cu: char = to_upper(c);

        if self.is_already_plugged(cu, self.initial_plug) {
            proof {
                if is_symbol(cu) {
                    lemma_connected_iff_contains(self.spec_plugboard(), cu);
                }
            }
            return Action::Ignored;
        }

        if !is_alphabet_char(cu) {
            return Action::Ignored;
        }

        proof {
            lemma_connected_iff_contains(self.spec_plugboard(), cu);
        }

        match self.initial_plug {
            None => {
                self.initial_plug = Some(cu);
                proof {
                    lemma_wf_from_parts(*old(self), *self);
                }
                Action::PendingPlugMarked(cu)
            },
            Some(ic) => {
                self.plugboard.add_connection(ic, cu);
                self.initial_plug = None;
                proof {
                    lemma_wf_from_parts(*old(self), *self);
                }
                Action::PlugPairAdded(ic, cu)
            },
        }
    }

    /// One step of the input state machine in wiring mode. Reaching the plug
    /// cap leaves wiring (discarding a pending plug — the documented policy
    /// for a half-wired pair at the cap) and swallows the key; the abort and
    /// cancel signals leave wiring too; character keys wire plugs.
    pub fn handle_wiring_key(&mut self, key: Key) -> (a: Action)
        requires
            old(self).wf(),
            old(self).spec_mode() == Mode::WiringPlugboard,
        ensures
            final(self).wf(),
            final(self).spec_rotors() == old(self).spec_rotors(),
            final(self).spec_reflector() == old(self).spec_reflector(),
            final(self).spec_message() == old(self).spec_message(),
            final(self).spec_config() == old(self).spec_config(),
            if old(self).spec_plugboard().spec_count() == MAX_PLUGS {
                &&& final(self).spec_plugboard() == old(self).spec_plugboard()
                &&& final(self).spec_mode() == Mode::Typing
                &&& final(self).spec_pending() is None
                &&& a == Action::PendingPlugDiscarded(old(self).spec_pending())
            } else {
                match key {
                    Key::Esc => {
                        &&& final(self).spec_plugboard().spec_count() == 0
                        &&& forall|i: int| 0 <= i < 26
                            ==> #[trigger] final(self).spec_plugboard().partners()[i] is None
                        &&& final(self).spec_mode() == Mode::Typing
                        &&& final(self).spec_pending() is None
                        &&& a == Action::PlugboardCleared
                    },
                    Key::Enter => {
                        &&& final(self).spec_plugboard() == old(self).spec_plugboard()
                        &&& final(self).spec_mode() == Mode::Typing
                        &&& final(self).spec_pending() is None
                        &&& a == Action::PendingPlugDiscarded(old(self).spec_pending())
                    },
                    Key::Char(c) => {
                        &&& final(self).spec_mode() == Mode::WiringPlugboard
                        &&& wiring_char_step(
                            old(self).spec_plugboard(),
                            old(self).spec_pending(),
                            c,
                            final(self).spec_plugboard(),
                            final(self).spec_pending(),
                            a,
                        )
                    },
                    Key::Other => {
                        &&& final(self).spec_plugboard() == old(self).spec_plugboard()
                        &&& final(self).spec_mode() == Mode::WiringPlugboard
                        &&& final(self).spec_pending() == old(self).spec_pending()
                        &&& a == Action::Ignored
                    },
                }
            },
    {
        if self.plugboard.get_num_connections() == MAX_PLUGS {
            let pending: Option<char> = self.initial_plug;
            self.initial_plug = None;
            self.mode = Mode::Typing;
            proof {
                lemma_wf_from_parts(*old(self), *self);
            }
            return Action::PendingPlugDiscarded(pending);
        }
        match key {
            Key::Esc => {
                self.plugboard.reset();
                self.initial_plug = None;
                self.mode = Mode::Typing;
                proof {
                    lemma_wf_from_parts(*old(self), *self);
                }
                Action::PlugboardCleared
            },
            Key::Enter => {
                let pending: Option<char> = self.initial_plug;
                self.initial_plug = None;
                self.mode = Mode::Typing;
                proof {
                    lemma_wf_from_parts(*old(self), *self);
                }
                Action::PendingPlugDiscarded(pending)
            },
            Key::Char(c) => self.handle_plugboard_char(c),
            Key::Other => Action::Ignored,
        }
    }

    /// Handle one character key while typing: digits turn a rotor by hand,
    /// alphabet symbols step the odometer and are enciphered and recorded,
    /// anything else is ignored.
    pub fn handle_character(&mut self, c: char) -> (a: Action)
        requires
            old(self).wf(),
        ensures
            final(self).wf(),
            typing_char_step(
                old(self).spec_plugboard(),
                old(self).spec_reflector(),
                old(self).spec_rotors(),
                old(self).spec_message(),
                c,
                final(self).spec_rotors(),
                final(self).spec_message(),
                a,
            ),
            final(self).spec_reflector() == old(self).spec_reflector(),
            final(self).spec_plugboard() == old(self).spec_plugboard(),
            final(self).spec_config() == old(self).spec_config(),
            final(self).spec_mode() == old(self).spec_mode(),
            final(self).spec_pending() == old(self).spec_pending(),
    {
        let cu: char = to_upper(c);
        if cu == '1' || cu == '2' || cu == '3' {
            let idx: usize = (cu as u32 - 49) as usize;
            if idx < self.rotors.len() {
                let turned: usize = self.manual_rotate(cu);
                Action::RotorTurned(turned)
            } else {
                Action::Ignored
            }
        } else if is_alphabet_char(cu) {
            self.auto_rotate();
            let out: char = self.key_press(cu);
            Action::Enciphered(cu, out)
        } else {
            Action::Ignored
        }
    }

    /// One step of the input state machine in typing mode: the quit signal
    /// ends the session, the commit signal flushes the formatted message for
    /// the output sink, character keys drive the machine.
    pub fn handle_typing_key(&mut self, key: Key) -> (a: Action)
        requires
            old(self).wf(),
            old(self).spec_mode() == Mode::Typing,
        ensures
            final(self).wf(),
            final(self).spec_reflector() == old(self).spec_reflector(),
            final(self).spec_plugboard() == old(self).spec_plugboard(),
            final(self).spec_config() == old(self).spec_config(),
            final(self).spec_pending() == old(self).spec_pending(),
            match key {
                Key::Esc => {
                    &&& final(self).spec_mode() == Mode::Terminated
                    &&& final(self).spec_rotors() == old(self).spec_rotors()
                    &&& final(self).spec_message() == old(self).spec_message()
                    &&& a == Action::Quit
                },
                Key::Enter => {
                    &&& final(self).spec_mode() == Mode::Typing
                    &&& final(self).spec_rotors() == old(self).spec_rotors()
                    &&& final(self).spec_message().spec_content() == Seq::<char>::empty()
                    &&& final(self).spec_message().spec_formatted()
                        == spec_format(old(self).spec_message().spec_content())
                    &&& a matches Action::Committed(s)
                        && s@ == spec_format(old(self).spec_message().spec_content())
                },
                Key::Char(c) => {
                    &&& final(self).spec_mode() == Mode::Typing
                    &&& typing_char_step(
                        old(self).spec_plugboard(),
                        old(self).spec_reflector(),
                        old(self).spec_rotors(),
                        old(self).spec_message(),
                        c,
                        final(self).spec_rotors(),
                        final(self).spec_message(),
                        a,
                    )
                },
                Key::Other => {
                    &&& final(self).spec_mode() == Mode::Typing
                    &&& final(self).spec_rotors() == old(self).spec_rotors()
                    &&& final(self).spec_message() == old(self).spec_message()
                    &&& a == Action::Ignored
                },
            },
    {
        match key {
            Key::Esc => {
                self.mode = Mode::Terminated;
                proof {
                    lemma_wf_from_parts(*old(self), *self);
                }
                Action::Quit
            },
            Key::Enter => {
                let formatted: String = self.save_and_wipe_message();
                Action::Committed(formatted)
            },
            Key::Char(c) => self.handle_character(c),
            Key::Other => Action::Ignored,
        }
    }

    /// Commit the message: format it for the output sink, clear the buffer,
    /// and hand the formatted text back for writing.
    pub fn save_and_wipe_message(&mut self) -> (formatted: String)
        requires
            old(self).wf(),
        ensures
            final(self).wf(),
            formatted@ == spec_format(old(self).spec_message().spec_content()),
            final(self).spec_message().spec_content() == Seq::<char>::empty(),
            final(self).spec_message().spec_formatted()
                == spec_format(old(self).spec_message().spec_content()),
            final(self).spec_rotors() == old(self).spec_rotors(),
            final(self).spec_reflector() == old(self).spec_reflector(),
            final(self).spec_plugboard() == old(self).spec_plugboard(),
            final(self).spec_config() == old(self).spec_config(),
            final(self).spec_mode() == old(self).spec_mode(),
            final(self).spec_pending() == old(self).spec_pending(),
    {
        self.message.format();
        let formatted: String = String::from_str(self.message.read_formatted());
        self.message.clear();
        proof {
            assert forall|i: int| 0 <= i < self.spec_rotors().len()
                implies (#[trigger] self.spec_rotors()[i]).wf() by {
                assert(old(self).spec_rotors()[i].wf());
            }
        }
        formatted
    }
}

/// A machine stays well formed when its rotors and reflector are kept, its
/// plugboard is well formed, and its pending plug is a legal one.
proof fn lemma_wf_from_parts(m1: EnigmaModel, m2: EnigmaModel)
    requires
        m1.wf(),
        m2.spec_rotors() == m1.spec_rotors(),
        m2.spec_reflector() == m1.spec_reflector(),
        m2.spec_plugboard().wf(),
        match m2.spec_pending() {
            Some(p) => is_symbol(p) && !m2.spec_plugboard().is_connected(p),
            None => true,
        },
    ensures
        m2.wf(),
{
    assert forall|i: int| 0 <= i < m2.spec_rotors().len()
        implies (#[trigger] m2.spec_rotors()[i]).wf() by {
        assert(m1.spec_rotors()[i].wf());
    }
}

/// After `k` odometer steps (`k` at most 26) of a three-rotor bank whose
/// middle rotor is not about to wrap: the slowest rotor has not moved, the
/// middle rotor has advanced exactly once as soon as the fastest wrapped, and
/// the fastest has moved `k` positions.
proof fn lemma_odometer_steps(offs: Seq<int>, k: nat)
    requires
        offs.len() == 3,
        forall|i: int| 0 <= i < 3 ==> 0 <= #[trigger] offs[i] < 26,
        offs[1] != 25,
        k <= 26,
    ensures
        step_offsets_n(offs, k).len() == 3,
        step_offsets_n(offs, k)[0] == offs[0],
        step_offsets_n(offs, k)[1] == if offs[2] + k >= 26 {
            offs[1] + 1
        } else {
            offs[1]
        },
        step_offsets_n(offs, k)[2] == (offs[2] + k) % 26,
    decreases k,
{
    if k > 0 {
        lemma_odometer_steps(offs, (k - 1) as nat);
        let prev = step_offsets_n(offs, (k - 1) as nat);
        let cur = step_offsets(prev);
        assert(cur == step_offsets_n(offs, k));
        // The fastest rotor always advances.
        assert(carry_into(prev, 2));
        assert(cur[2] == advance_offset(prev[2]));
        vstd::arithmetic::div_mod::lemma_add_mod_noop(offs[2] + k - 1, 1, 26);
        vstd::arithmetic::div_mod::lemma_small_mod(1nat, 26nat);
        assert(cur[2] == (offs[2] + k) % 26);
        // The middle rotor advances exactly when the fastest shows 25.
        assert((offs[2] + k - 1) % 26 == 25 <==> offs[2] + k - 1 == 25) by {
            if offs[2] + k - 1 < 26 {
                vstd::arithmetic::div_mod::lemma_small_mod((offs[2] + k - 1) as nat, 26nat);
            } else {
                vstd::arithmetic::div_mod::lemma_mod_add_multiples_vanish(
                    offs[2] + k - 1 - 26, 26);
                vstd::arithmetic::div_mod::lemma_small_mod((offs[2] + k - 1 - 26) as nat, 26nat);
            }
        }
        if prev[2] == 25 {
            assert(carry_into(prev, 1));
            // The fastest shows 25 only before the middle has advanced.
            assert(prev[1] == offs[1]);
            assert(cur[1] == advance_offset(offs[1]));
            vstd::arithmetic::div_mod::lemma_small_mod((offs[1] + 1) as nat, 26nat);
            // The middle rotor is not at 25 then, so the slowest stays put.
            assert(!carry_into(prev, 0));
            assert(cur[0] == offs[0]);
        } else {
            assert(!carry_into(prev, 1));
            assert(!carry_into(prev, 0));
            assert(cur[1] == prev[1]);
            assert(cur[0] == offs[0]);
        }
    }
}

/// Law: starting from any position where the middle rotor is not about to
/// wrap, 26 keypresses take the fastest of three rotors around exactly once,
/// advance the middle rotor exactly once, and leave the slowest untouched —
/// no carry skips a level and none over-propagates. (When the middle rotor
/// starts at 25, its one advance wraps and legitimately carries onward.)
pub proof fn lemma_carry_propagation(offs: Seq<int>)
    requires
        offs.len() == 3,
        forall|i: int| 0 <= i < 3 ==> 0 <= #[trigger] offs[i] < 26,
        offs[1] != 25,
    ensures
        step_offsets_n(offs, 26) =~= seq![offs[0], offs[1] + 1, offs[2]],
{
    lemma_odometer_steps(offs, 26);
    vstd::arithmetic::div_mod::lemma_mod_add_multiples_vanish(offs[2], 26);
    vstd::arithmetic::div_mod::lemma_small_mod(offs[2] as nat, 26nat);
}

/// The signal path's rotor passes send symbols to symbols.
proof fn lemma_pass_symbol(rotors: Seq<Rotor>, c: char)
    requires
        forall|i: int| 0 <= i < rotors.len() ==> (#[trigger] rotors[i]).wf(),
        is_symbol(c),
    ensures
        is_symbol(forward_pass(rotors, c)),
        is_symbol(reverse_pass(rotors, c)),
    decreases rotors.len(),
{
    if rotors.len() > 0 {
        assert(rotors[0].wf());
        assert forall|i: int| 0 <= i < rotors.drop_first().len()
            implies (#[trigger] rotors.drop_first()[i]).wf() by {
            assert(rotors[i + 1].wf());
        }
        lemma_pass_symbol(rotors.drop_first(), c);
        lemma_forward_symbol(rotors.first(), forward_pass(rotors.drop_first(), c));
        lemma_forward_symbol(rotors.first(), c);
        lemma_pass_symbol(rotors.drop_first(), rotors.first().reverse_spec(c));
    }
}

/// The two rotor passes invert each other at any fixed offsets.
proof fn lemma_passes_inverse(rotors: Seq<Rotor>, c: char)
    requires
        forall|i: int| 0 <= i < rotors.len() ==> (#[trigger] rotors[i]).wf(),
        is_symbol(c),
    ensures
        reverse_pass(rotors, forward_pass(rotors, c)) == c,
        forward_pass(rotors, reverse_pass(rotors, c)) == c,
    decreases rotors.len(),
{
    if rotors.len() > 0 {
        let first = rotors.first();
        let rest = rotors.drop_first();
        assert(rotors[0].wf());
        assert forall|i: int| 0 <= i < rest.len()
            implies (#[trigger] rest[i]).wf() by {
            assert(rotors[i + 1].wf());
        }
        // Forward then reverse.
        lemma_pass_symbol(rest, c);
        lemma_passes_inverse(rest, c);
        crate::rotor::lemma_reverse_inverts_forward(first, forward_pass(rest, c));
        // Reverse then forward.
        lemma_forward_symbol(first, c);
        lemma_passes_inverse(rest, first.reverse_spec(c));
        crate::rotor::lemma_forward_inverts_reverse(first, c);
    }
}

/// Law: with an empty plugboard and an involutory (or absent) reflector,
/// enciphering a symbol twice at one fixed rotor state returns the original
/// symbol — the machine is self-inverse, which is what lets one machine both
/// encrypt and decrypt.
pub proof fn lemma_round_trip(
    plugboard: Plugboard,
    rotors: Seq<Rotor>,
    reflector: Option<Rotor>,
    c: char,
)
    requires
        plugboard.wf(),
        forall|i: int| 0 <= i < 26 ==> #[trigger] plugboard.partners()[i] is None,
        forall|i: int| 0 <= i < rotors.len() ==> (#[trigger] rotors[i]).wf(),
        match reflector {
            Some(r) => r.wf() && r.spec_offset() == 0 && crate::rotor::is_involution(r),
            None => true,
        },
        is_symbol(c),
    ensures
        spec_encipher(plugboard, rotors, reflector,
            spec_encipher(plugboard, rotors, reflector, c)) == c,
{
    // The empty plugboard is the identity on every symbol.
    assert forall|x: char| is_symbol(x)
        implies #[trigger] plugboard.spec_permutation(x) == x by {
        assert(plugboard.partners()[symbol_index(x)] is None);
    }
    let f = forward_pass(rotors, c);
    lemma_pass_symbol(rotors, c);
    let refl = match reflector {
        Some(r) => r.forward_spec(f),
        None => f,
    };
    if let Some(r) = reflector {
        lemma_forward_symbol(r, f);
    }
    let e1 = reverse_pass(rotors, refl);
    lemma_pass_symbol(rotors, refl);
    assert(spec_encipher(plugboard, rotors, reflector, c) == e1);
    // Enciphering the result: the forward pass undoes the reverse pass,
    // the reflector undoes itself, and the reverse pass undoes the forward.
    lemma_passes_inverse(rotors, refl);
    assert(forward_pass(rotors, e1) == refl);
    if let Some(r) = reflector {
        assert(r.forward_spec(refl) == f);
    }
    lemma_passes_inverse(rotors, c);
    assert(reverse_pass(rotors, f) == c);
}

/// Appending a rotor to the bank sends the reverse pass through it last.
proof fn lemma_reverse_pass_push(rotors: Seq<Rotor>, r: Rotor, c: char)
    ensures
        reverse_pass(rotors.push(r), c) == r.reverse_spec(reverse_pass(rotors, c)),
    decreases rotors.len(),
{
    assert(rotors.push(r).len() == rotors.len() + 1);
    if rotors.len() == 0 {
        assert(rotors.push(r).first() == r);
        assert(rotors.push(r).drop_first() =~= Seq::<Rotor>::empty());
        assert(reverse_pass(rotors.push(r), c)
            == reverse_pass(Seq::<Rotor>::empty(), r.reverse_spec(c)));
        assert(reverse_pass(Seq::<Rotor>::empty(), r.reverse_spec(c)) == r.reverse_spec(c));
        assert(reverse_pass(rotors, c) == c);
    } else {
        assert(rotors.push(r).first() == rotors.first());
        assert(rotors.push(r).drop_first() =~= rotors.drop_first().push(r));
        lemma_reverse_pass_push(rotors.drop_first(), r, rotors.first().reverse_spec(c));
        assert(reverse_pass(rotors.push(r), c)
            == reverse_pass(rotors.drop_first().push(r), rotors.first().reverse_spec(c)));
        assert(reverse_pass(rotors, c)
            == reverse_pass(rotors.drop_first(), rotors.first().reverse_spec(c)));
    }
}

} // verus!
