//! The Lisp that describes a synth: from a text to a synth.
//!
//! A script is a list of forms. `(let name value)` binds a name,
//! `(def-store name)` makes a register and binds it, `(store register
//! value)` writes one, `(gain constant)` and `(output node)` set the gain
//! and the output, and every other form is a call that adds nodes.
use vstd::prelude::*;
use vstd::slice::slice_to_vec;
use vstd::string::StrSliceExecFns;
use crate::buffer::{silence, Buffer, BufferID, BufferSampler, BufferUsageType, Sequencer};
use crate::context::Stage;
use crate::envelope::AR;
use crate::gate::Gate;
use crate::kernel::{apply as ask, functional, graph, total, Arithmetic, Op};
use crate::node::{Input, Node, NodeContainer, NodeID, Phase};
use crate::context::Scene;
use crate::pipeline::{Context, Desk};
use crate::reader::{
    accepts_all, by_characters, expressions, lexicon, trees, trimmed, ExprReader, Lexicon,
    LispError, SExpression, Tree,
};
use crate::sample::{Sample, FULL_TURN, ONE, ZERO};
use crate::synth::{mixed_into, StoreID, Synth, SynthID, Voice};

verus! {

/// What an expression evaluates to.
#[derive(Clone, Copy, Debug)]
pub enum EvalResult {
    /// A number that is known while the synth is built.
    Constant(Sample),
    /// Something that a node can take as its input.
    SynthNode(Input),
}

impl EvalResult {
    /// The result as an input: a constant as a literal.
    pub open spec fn input(self) -> Input {
        match self {
            EvalResult::Constant(f) => Input::Literal(f),
            EvalResult::SynthNode(n) => n,
        }
    }

    /// The constant; anything else is refused.
    pub fn expect_constant(self) -> (r: Result<Sample, LispError>)
        ensures
            r == match self {
                EvalResult::Constant(f) => Ok::<Sample, LispError>(f),
                EvalResult::SynthNode(_) => Err::<Sample, LispError>(LispError::ExpectedConstant),
            },
    {
        match self {
            EvalResult::Constant(f) => Ok(f),
            EvalResult::SynthNode(_) => Err(LispError::ExpectedConstant),
        }
    }

    /// The result as an input: a constant as a literal.
    pub fn to_input(self) -> (r: Result<Input, LispError>)
        ensures
            r == Ok::<Input, LispError>(self.input()),
    {
        match self {
            EvalResult::Constant(f) => Ok(Input::Literal(f)),
            EvalResult::SynthNode(n) => Ok(n),
        }
    }

    /// The id of the node; anything else is refused.
    pub fn expect_node_id(self) -> (r: Result<NodeID, LispError>)
        ensures
            r == match self {
                EvalResult::SynthNode(Input::Node(id)) => Ok::<NodeID, LispError>(id),
                _ => Err::<NodeID, LispError>(LispError::ExpectedNode),
            },
    {
        match self {
            EvalResult::SynthNode(Input::Node(id)) => Ok(id),
            _ => Err(LispError::ExpectedNode),
        }
    }

    /// The id of the register; anything else is refused.
    pub fn expect_store_id(self) -> (r: Result<StoreID, LispError>)
        ensures
            r == match self {
                EvalResult::SynthNode(Input::Store(id)) => Ok::<StoreID, LispError>(id),
                _ => Err::<StoreID, LispError>(LispError::ExpectedStore),
            },
    {
        match self {
            EvalResult::SynthNode(Input::Store(id)) => Ok(id),
            _ => Err(LispError::ExpectedStore),
        }
    }
}

impl SExpression {
    /// The name of the identifier; anything else is refused.
    pub fn expect_ident(&self) -> (r: Result<&Vec<char>, LispError>)
        ensures
            match self.tree() {
                Tree::Identifier(name) => r matches Ok(word) && word@ == name,
                _ => r == Err::<&Vec<char>, LispError>(LispError::ExpectedIdentifier),
            },
    {
        match self {
            SExpression::Identifier(s) => Ok(s),
            _ => Err(LispError::ExpectedIdentifier),
        }
    }
}

/// Whether `name` is the word `word`.
pub fn spells(name: &Vec<char>, word: &str) -> (b: bool)
    ensures
        b == (name@ == word@),
{
    let len = word.unicode_len();
    if name.len() != len {
        return false;
    }
    let mut i: usize = 0;
    while i < len
        invariant
            i <= len,
            len == word@.len(),
            len == name@.len(),
            forall|j: int| 0 <= j < i ==> name@[j] == word@[j],
        decreases len - i,
    {
        if name[i] != word.get_char(i) {
            return false;
        }
        i = i + 1;
    }
    assert(name@ =~= word@);
    true
}

/// Whether two names are the same.
pub fn same_name(a: &Vec<char>, b: &Vec<char>) -> (same: bool)
    ensures
        same == (a@ == b@),
{
    if a.len() != b.len() {
        return false;
    }
    let mut i: usize = 0;
    while i < a.len()
        invariant
            i <= a@.len(),
            a@.len() == b@.len(),
            forall|j: int| 0 <= j < i ==> a@[j] == b@[j],
        decreases a@.len() - i,
    {
        if a[i] != b[i] {
            return false;
        }
        i = i + 1;
    }
    assert(a@ =~= b@);
    true
}

/// The functions that add nodes.
#[derive(Clone, Copy, Debug, PartialEq, Eq, Structural)]
pub enum Function {
    Multiply,
    Add,
    Subtract,
    Mix,
    Sine,
    Triangle,
    Square,
    Saw,
    LowPass,
    HighPass,
    EnvAr,
    Clamp,
    Bake,
}

/// The forms that stand at the top level only.
#[derive(Clone, Copy, Debug, PartialEq, Eq, Structural)]
pub enum Form {
    Let,
    Gain,
    Output,
    DefStore,
    Store,
}

/// The function of that name.
pub open spec fn function_named(name: Seq<char>) -> Option<Function> {
    if name == "*"@ {
        Some(Function::Multiply)
    } else if name == "+"@ {
        Some(Function::Add)
    } else if name == "-"@ {
        Some(Function::Subtract)
    } else if name == "mix"@ {
        Some(Function::Mix)
    } else if name == "sin"@ || name == "sine"@ {
        Some(Function::Sine)
    } else if name == "tri"@ || name == "triangle"@ {
        Some(Function::Triangle)
    } else if name == "sqr"@ || name == "square"@ {
        Some(Function::Square)
    } else if name == "saw"@ || name == "sawtooth"@ {
        Some(Function::Saw)
    } else if name == "lp"@ || name == "lowpass"@ {
        Some(Function::LowPass)
    } else if name == "hp"@ || name == "highpass"@ {
        Some(Function::HighPass)
    } else if name == "ar"@ || name == "env-ar"@ {
        Some(Function::EnvAr)
    } else if name == "clamp"@ {
        Some(Function::Clamp)
    } else if name == "bake"@ {
        Some(Function::Bake)
    } else {
        None
    }
}

/// The top-level form of that name.
pub open spec fn form_named(name: Seq<char>) -> Option<Form> {
    if name == "let"@ {
        Some(Form::Let)
    } else if name == "gain"@ {
        Some(Form::Gain)
    } else if name == "output"@ {
        Some(Form::Output)
    } else if name == "def-store"@ {
        Some(Form::DefStore)
    } else if name == "store"@ {
        Some(Form::Store)
    } else {
        None
    }
}

/// Looks a function up by its name.
pub fn find_function(name: &Vec<char>) -> (found: Option<Function>)
    ensures
        found == function_named(name@),
{
    if spells(name, "*") {
        Some(Function::Multiply)
    } else if spells(name, "+") {
        Some(Function::Add)
    } else if spells(name, "-") {
        Some(Function::Subtract)
    } else if spells(name, "mix") {
        Some(Function::Mix)
    } else if spells(name, "sin") || spells(name, "sine") {
        Some(Function::Sine)
    } else if spells(name, "tri") || spells(name, "triangle") {
        Some(Function::Triangle)
    } else if spells(name, "sqr") || spells(name, "square") {
        Some(Function::Square)
    } else if spells(name, "saw") || spells(name, "sawtooth") {
        Some(Function::Saw)
    } else if spells(name, "lp") || spells(name, "lowpass") {
        Some(Function::LowPass)
    } else if spells(name, "hp") || spells(name, "highpass") {
        Some(Function::HighPass)
    } else if spells(name, "ar") || spells(name, "env-ar") {
        Some(Function::EnvAr)
    } else if spells(name, "clamp") {
        Some(Function::Clamp)
    } else if spells(name, "bake") {
        Some(Function::Bake)
    } else {
        None
    }
}

/// Looks a top-level form up by its name.
pub fn find_form(name: &Vec<char>) -> (found: Option<Form>)
    ensures
        found == form_named(name@),
{
    if spells(name, "let") {
        Some(Form::Let)
    } else if spells(name, "gain") {
        Some(Form::Gain)
    } else if spells(name, "output") {
        Some(Form::Output)
    } else if spells(name, "def-store") {
        Some(Form::DefStore)
    } else if spells(name, "store") {
        Some(Form::Store)
    } else {
        None
    }
}

/// What is bound to `name`: the value of the newest binding of that name.
pub open spec fn bound(bindings: Seq<(Seq<char>, EvalResult)>, name: Seq<char>) -> Option<
    EvalResult,
>
    decreases bindings.len(),
{
    if bindings.len() == 0 {
        None
    } else if bindings.last().0 == name {
        Some(bindings.last().1)
    } else {
        bound(bindings.drop_last(), name)
    }
}

/// A list of bindings as plain values.
pub open spec fn bindings_of(list: Seq<(Vec<char>, EvalResult)>) -> Seq<(Seq<char>, EvalResult)> {
    Seq::new(list.len(), |i: int| (list[i].0@, list[i].1))
}

/// Looks a name up in a list of bindings.
pub fn find_binding(list: &Vec<(Vec<char>, EvalResult)>, name: &Vec<char>) -> (found: Option<
    EvalResult,
>)
    ensures
        found == bound(bindings_of(list@), name@),
{
    let mut i: usize = list.len();
    proof {
        assert(bindings_of(list@).take(i as int) =~= bindings_of(list@));
    }
    while i > 0
        invariant
            i <= list@.len(),
            bound(bindings_of(list@), name@) == bound(bindings_of(list@).take(i as int), name@),
        decreases i,
    {
        let ghost front = bindings_of(list@).take(i as int);
        proof {
            assert(front.last() == (list@[i - 1].0@, list@[i - 1].1));
            assert(front.drop_last() =~= bindings_of(list@).take(i - 1));
        }
        if same_name(&list[i - 1].0, name) {
            return Some(list[i - 1].1);
        }
        i = i - 1;
    }
    None
}

/// Where the evaluation of a script stands: the synth as far as it is
/// built, and the names that are bound.
pub struct Script {
    pub voice: Voice,
    /// The bindings, the newest last.
    pub bindings: Seq<(Seq<char>, EvalResult)>,
}

/// The outcome of a step of the evaluation: its result and the script
/// after it, or why it failed; and, either way, the id that the next new
/// synth is given.
pub type Outcome<T> = (Result<(T, Script), LispError>, u32);

/// The script of a new synth of the id `id`.
pub open spec fn blank(id: u32) -> Script {
    Script {
        voice: Voice {
            id: SynthID(id),
            gain: Sample(ONE),
            output_node: None,
            nodes: Seq::empty(),
            store: Seq::empty(),
            parameters: Seq::empty(),
            local: Seq::empty(),
        },
        bindings: Seq::empty(),
    }
}

/// The script with one more node, and the node as a result. A synth that
/// is full refuses it.
pub open spec fn with_node(script: Script, node: Node) -> Result<(EvalResult, Script), LispError> {
    if script.voice.nodes.len() >= u32::MAX {
        Err(LispError::SynthFull)
    } else {
        Ok(
            (
                EvalResult::SynthNode(Input::Node(NodeID(script.voice.nodes.len() as u32))),
                Script {
                    voice: Voice { nodes: script.voice.nodes.push(node), ..script.voice },
                    ..script
                },
            ),
        )
    }
}

/// The node that a function of two inputs makes of them.
pub open spec fn pair_node(function: Function, a: Input, b: Input) -> Node {
    match function {
        Function::Multiply => Node::Multiply(a, b),
        Function::Add => Node::Add(a, b),
        Function::LowPass => Node::LowPass { input: a, freq: b, prev_result: Sample(ZERO) },
        Function::HighPass => Node::HighPass { input: a, freq: b, prev_sample_diff: Sample(ZERO) },
        _ => Node::Subtract(a, b),
    }
}

/// The oscillator that a function makes of a frequency.
pub open spec fn wave_node(function: Function, freq: Input) -> Node {
    match function {
        Function::Sine => Node::Sine(
            Phase { phase: Sample(ZERO), period: Sample(FULL_TURN), freq },
        ),
        Function::Triangle => Node::Triangle(
            Phase { phase: Sample(ZERO), period: Sample(ONE), freq },
        ),
        Function::Square => Node::Square(Phase { phase: Sample(ZERO), period: Sample(ONE), freq }),
        _ => Node::Saw(Phase { phase: Sample(ZERO), period: Sample(ONE), freq }),
    }
}

/// The stage that a synth is baked on: the rate of the session, and no
/// shared buffer.
pub open spec fn bake_stage(f: Arithmetic, rate: Sample) -> Stage {
    Stage { rate, dt: f(Op::Div(Sample(ONE), rate)), shared: Seq::empty() }
}

/// What an expression evaluates to: a number to itself, an identifier to
/// what is bound to it, a list to what the call gives.
pub open spec fn value(tree: Tree, script: Script, rate: Sample, next_id: u32, f: Arithmetic)
    -> Outcome<EvalResult>
    decreases tree, 0nat,
{
    match tree {
        Tree::Number(n) => (Ok((EvalResult::Constant(n), script)), next_id),
        Tree::Identifier(name) => match bound(script.bindings, name) {
            Some(v) => (Ok((v, script)), next_id),
            None => (Err(LispError::UnknownIdentifier), next_id),
        },
        Tree::List(items) => call(items, script, rate, next_id, f),
    }
}

/// What a call gives: the list starts with the name of a function, and
/// the expressions behind it are its arguments.
pub open spec fn call(items: Seq<Tree>, script: Script, rate: Sample, next_id: u32, f: Arithmetic)
    -> Outcome<EvalResult>
    decreases items, 4nat,
{
    if items.len() == 0 {
        (Err(LispError::EmptyList), next_id)
    } else {
        match items[0] {
            Tree::Identifier(name) => match function_named(name) {
                Some(function) => apply(function, items.skip(1), script, rate, next_id, f),
                None => (Err(LispError::UnknownFunction), next_id),
            },
            _ => (Err(LispError::ExpectedIdentifier), next_id),
        }
    }
}

/// The inputs that the arguments evaluate to, one after the other.
pub open spec fn inputs(args: Seq<Tree>, script: Script, rate: Sample, next_id: u32, f: Arithmetic)
    -> Outcome<Seq<Input>>
    decreases args, 2nat,
{
    if args.len() == 0 {
        (Ok((Seq::empty(), script)), next_id)
    } else {
        match value(args[0], script, rate, next_id, f) {
            (Ok((first, script)), next_id) => match inputs(args.skip(1), script, rate, next_id, f) {
                (Ok((others, script)), next_id) => (
                    Ok((seq![first.input()] + others, script)),
                    next_id,
                ),
                (Err(e), next_id) => (Err(e), next_id),
            },
            (Err(e), next_id) => (Err(e), next_id),
        }
    }
}

/// The chain that `*`, `+` and `-` build: one node for each further
/// argument, which takes what stands so far and the argument.
pub open spec fn chain(
    function: Function,
    so_far: Input,
    rest: Seq<Tree>,
    script: Script,
    rate: Sample,
    next_id: u32,
    f: Arithmetic,
) -> Outcome<EvalResult>
    decreases rest, 2nat,
{
    if rest.len() == 0 {
        (Ok((EvalResult::SynthNode(so_far), script)), next_id)
    } else {
        match value(rest[0], script, rate, next_id, f) {
            (Ok((next, script)), next_id) => match with_node(
                script,
                pair_node(function, so_far, next.input()),
            ) {
                Ok((node, script)) => chain(
                    function,
                    node.input(),
                    rest.skip(1),
                    script,
                    rate,
                    next_id,
                    f,
                ),
                Err(e) => (Err(e), next_id),
            },
            (Err(e), next_id) => (Err(e), next_id),
        }
    }
}

/// What a function gives for its arguments.
pub open spec fn apply(
    function: Function,
    args: Seq<Tree>,
    script: Script,
    rate: Sample,
    next_id: u32,
    f: Arithmetic,
) -> Outcome<EvalResult>
    decreases args, 3nat,
{
    match function {
        Function::Multiply | Function::Add | Function::Subtract => {
            if args.len() < 2 {
                (
                    Err(LispError::TooFewArguments { at_least: 2, received: args.len() as usize }),
                    next_id,
                )
            } else {
                match value(args[0], script, rate, next_id, f) {
                    (Ok((first, script)), next_id) => chain(
                        function,
                        first.input(),
                        args.skip(1),
                        script,
                        rate,
                        next_id,
                        f,
                    ),
                    (Err(e), next_id) => (Err(e), next_id),
                }
            }
        },
        Function::Mix | Function::Clamp => {
            if args.len() != 3 {
                (
                    Err(LispError::WrongArgumentCount { expected: 3, received: args.len() as usize }),
                    next_id,
                )
            } else {
                match inputs(args, script, rate, next_id, f) {
                    (Ok((ins, script)), next_id) => (
                        with_node(
                            script,
                            if function == Function::Mix {
                                Node::Mix { a: ins[0], b: ins[1], mix: ins[2] }
                            } else {
                                Node::Clamp { input: ins[0], lb: ins[1], ub: ins[2] }
                            },
                        ),
                        next_id,
                    ),
                    (Err(e), next_id) => (Err(e), next_id),
                }
            }
        },
        Function::Sine | Function::Triangle | Function::Square | Function::Saw => {
            if args.len() != 1 {
                (
                    Err(LispError::WrongArgumentCount { expected: 1, received: args.len() as usize }),
                    next_id,
                )
            } else {
                match inputs(args, script, rate, next_id, f) {
                    (Ok((ins, script)), next_id) => (
                        with_node(script, wave_node(function, ins[0])),
                        next_id,
                    ),
                    (Err(e), next_id) => (Err(e), next_id),
                }
            }
        },
        Function::LowPass | Function::HighPass => {
            if args.len() != 2 {
                (
                    Err(LispError::WrongArgumentCount { expected: 2, received: args.len() as usize }),
                    next_id,
                )
            } else {
                match inputs(args, script, rate, next_id, f) {
                    (Ok((ins, script)), next_id) => (
                        with_node(script, pair_node(function, ins[0], ins[1])),
                        next_id,
                    ),
                    (Err(e), next_id) => (Err(e), next_id),
                }
            }
        },
        Function::EnvAr => {
            if args.len() != 3 {
                (
                    Err(LispError::WrongArgumentCount { expected: 3, received: args.len() as usize }),
                    next_id,
                )
            } else {
                match value(args[0], script, rate, next_id, f) {
                    (Ok((EvalResult::Constant(attack), script)), next_id) => match value(
                        args[1],
                        script,
                        rate,
                        next_id,
                        f,
                    ) {
                        (Ok((EvalResult::Constant(release), script)), next_id) => match value(
                            args[2],
                            script,
                            rate,
                            next_id,
                            f,
                        ) {
                            (Ok((gate, script)), next_id) => (
                                with_node(
                                    script,
                                    Node::EnvAR(AR::made(f, attack, release, gate.input())),
                                ),
                                next_id,
                            ),
                            (Err(e), next_id) => (Err(e), next_id),
                        },
                        (Ok(_), next_id) => (Err(LispError::ExpectedConstant), next_id),
                        (Err(e), next_id) => (Err(e), next_id),
                    },
                    (Ok(_), next_id) => (Err(LispError::ExpectedConstant), next_id),
                    (Err(e), next_id) => (Err(e), next_id),
                }
            }
        },
        Function::Bake => {
            if args.len() < 2 {
                (
                    Err(LispError::TooFewArguments { at_least: 2, received: args.len() as usize }),
                    next_id,
                )
            } else {
                match value(args[0], script, rate, next_id, f) {
                    (Ok((EvalResult::Constant(seconds), script)), next_id) => {
                        let samples = f(Op::Mul(seconds, rate)).count();
                        if samples == 0 {
                            (Err(LispError::ZeroLengthBake), next_id)
                        } else if next_id == u32::MAX {
                            (Err(LispError::OutOfIds), next_id)
                        } else {
                            match built(
                                args.skip(1),
                                blank(next_id),
                                rate,
                                (next_id + 1) as u32,
                                f,
                            ) {
                                (Ok(((), baked)), next_id) => (
                                    with_bake(script, baked.voice, samples, rate, f),
                                    next_id,
                                ),
                                (Err(e), next_id) => (Err(e), next_id),
                            }
                        }
                    },
                    (Ok(_), next_id) => (Err(LispError::ExpectedConstant), next_id),
                    (Err(e), next_id) => (Err(e), next_id),
                }
            }
        },
    }
}

/// The script with the voice `baked` rendered into a new local buffer of
/// `samples` samples, and with a sampler that plays the buffer.
pub open spec fn with_bake(
    script: Script,
    baked: Voice,
    samples: usize,
    rate: Sample,
    f: Arithmetic,
) -> Result<(EvalResult, Script), LispError> {
    let stage = bake_stage(f, rate);
    if !baked.playable(Seq::empty(), stage) {
        Err(LispError::MalformedSynth)
    } else if script.voice.local.len() >= u16::MAX {
        Err(LispError::TooManyBuffers)
    } else {
        let rendered = mixed_into(
            f,
            baked.start(Seq::empty()),
            baked.setting(stage),
            baked.output_node,
            baked.gain,
            silence(samples as nat),
        );
        with_node(
            Script {
                voice: Voice { local: script.voice.local.push(rendered), ..script.voice },
                ..script
            },
            Node::Sampler {
                sampler: BufferSampler(
                    Sequencer {
                        buffer_id: BufferID(BufferUsageType::Local, script.voice.local.len() as u16),
                        position: 0,
                    },
                ),
                reset: Gate::with(Input::Literal(Sample(ZERO))),
            },
        )
    }
}

/// The script after one form at the top level.
pub open spec fn form(tree: Tree, script: Script, rate: Sample, next_id: u32, f: Arithmetic)
    -> Outcome<()>
    decreases tree, 1nat,
{
    match tree {
        Tree::List(items) => {
            if items.len() == 0 {
                (Err(LispError::EmptyList), next_id)
            } else {
                match items[0] {
                    Tree::Identifier(name) => match form_named(name) {
                        Some(kind) => special(kind, items.skip(1), script, rate, next_id, f),
                        None => match call(items, script, rate, next_id, f) {
                            (Ok((_, script)), next_id) => (Ok(((), script)), next_id),
                            (Err(e), next_id) => (Err(e), next_id),
                        },
                    },
                    _ => (Err(LispError::ExpectedIdentifier), next_id),
                }
            }
        },
        _ => (Err(LispError::UnexpectedTopLevel), next_id),
    }
}

/// The script after one of the forms that stand at the top level only.
pub open spec fn special(
    kind: Form,
    args: Seq<Tree>,
    script: Script,
    rate: Sample,
    next_id: u32,
    f: Arithmetic,
) -> Outcome<()>
    decreases args, 3nat,
{
    match kind {
        Form::Let => {
            if args.len() != 2 {
                (
                    Err(LispError::WrongArgumentCount { expected: 2, received: args.len() as usize }),
                    next_id,
                )
            } else {
                match args[0] {
                    Tree::Identifier(name) => match value(args[1], script, rate, next_id, f) {
                        (Ok((v, script)), next_id) => (
                            Ok(
                                (
                                    (),
                                    Script { bindings: script.bindings.push((name, v)), ..script },
                                ),
                            ),
                            next_id,
                        ),
                        (Err(e), next_id) => (Err(e), next_id),
                    },
                    _ => (Err(LispError::ExpectedIdentifier), next_id),
                }
            }
        },
        Form::Gain => {
            if args.len() != 1 {
                (
                    Err(LispError::WrongArgumentCount { expected: 1, received: args.len() as usize }),
                    next_id,
                )
            } else {
                match value(args[0], script, rate, next_id, f) {
                    (Ok((EvalResult::Constant(gain), script)), next_id) => (
                        Ok(((), Script { voice: Voice { gain, ..script.voice }, ..script })),
                        next_id,
                    ),
                    (Ok(_), next_id) => (Err(LispError::ExpectedConstant), next_id),
                    (Err(e), next_id) => (Err(e), next_id),
                }
            }
        },
        Form::Output => {
            if args.len() != 1 {
                (
                    Err(LispError::WrongArgumentCount { expected: 1, received: args.len() as usize }),
                    next_id,
                )
            } else {
                match value(args[0], script, rate, next_id, f) {
                    (Ok((EvalResult::SynthNode(Input::Node(id)), script)), next_id) => (
                        Ok(
                            (
                                (),
                                Script {
                                    voice: Voice {
                                        output_node: Some(id.0 as usize),
                                        ..script.voice
                                    },
                                    ..script
                                },
                            ),
                        ),
                        next_id,
                    ),
                    (Ok(_), next_id) => (Err(LispError::ExpectedNode), next_id),
                    (Err(e), next_id) => (Err(e), next_id),
                }
            }
        },
        Form::DefStore => {
            if args.len() != 1 {
                (
                    Err(LispError::WrongArgumentCount { expected: 1, received: args.len() as usize }),
                    next_id,
                )
            } else {
                match args[0] {
                    Tree::Identifier(name) => {
                        if script.voice.store.len() >= u32::MAX {
                            (Err(LispError::SynthFull), next_id)
                        } else {
                            (
                                Ok(
                                    (
                                        (),
                                        Script {
                                            voice: Voice {
                                                store: script.voice.store.push(Sample(ZERO)),
                                                ..script.voice
                                            },
                                            bindings: script.bindings.push(
                                                (
                                                    name,
                                                    EvalResult::SynthNode(
                                                        Input::Store(
                                                            StoreID(
                                                                script.voice.store.len() as u32,
                                                            ),
                                                        ),
                                                    ),
                                                ),
                                            ),
                                        },
                                    ),
                                ),
                                next_id,
                            )
                        }
                    },
                    _ => (Err(LispError::ExpectedIdentifier), next_id),
                }
            }
        },
        Form::Store => {
            if args.len() != 2 {
                (
                    Err(LispError::WrongArgumentCount { expected: 2, received: args.len() as usize }),
                    next_id,
                )
            } else {
                match value(args[0], script, rate, next_id, f) {
                    (Ok((register, script)), next_id) => match value(
                        args[1],
                        script,
                        rate,
                        next_id,
                        f,
                    ) {
                        (Ok((v, script)), next_id) => match register {
                            EvalResult::SynthNode(Input::Store(id)) => match with_node(
                                script,
                                Node::StoreWrite(id, v.input()),
                            ) {
                                Ok((_, script)) => (Ok(((), script)), next_id),
                                Err(e) => (Err(e), next_id),
                            },
                            _ => (Err(LispError::ExpectedStore), next_id),
                        },
                        (Err(e), next_id) => (Err(e), next_id),
                    },
                    (Err(e), next_id) => (Err(e), next_id),
                }
            }
        },
    }
}

/// The script after the forms `forms`, one after the other.
pub open spec fn built(forms: Seq<Tree>, script: Script, rate: Sample, next_id: u32, f: Arithmetic)
    -> Outcome<()>
    decreases forms, 2nat,
{
    if forms.len() == 0 {
        (Ok(((), script)), next_id)
    } else {
        match form(forms[0], script, rate, next_id, f) {
            (Ok((_, script)), next_id) => built(forms.skip(1), script, rate, next_id, f),
            (Err(e), next_id) => (Err(e), next_id),
        }
    }
}

/// The outcome `outcome` is what has happened: `result` is its result,
/// `script` the script after it, and `next_id` the id that the next new
/// synth is given.
pub open spec fn agrees<T>(
    outcome: Outcome<T>,
    result: Result<T, LispError>,
    script: Script,
    next_id: u32,
) -> bool {
    &&& outcome.1 == next_id
    &&& match outcome.0 {
        Ok((v, after)) => result == Ok::<T, LispError>(v) && script == after,
        Err(e) => result == Err::<T, LispError>(e),
    }
}

/// The context is as it was, but for the id that it issues next.
pub open spec fn only_ids(before: Desk, after: Desk) -> bool {
    after == (Desk { next_id: after.next_id, ..before })
}

/// The evaluation of one script: the synth as far as it is built, and the
/// names that are bound.
pub struct EvaluationContext {
    pub synth: Synth,
    /// The bindings, the newest last.
    pub let_bindings: Vec<(Vec<char>, EvalResult)>,
}

impl View for EvaluationContext {
    type V = Script;

    open spec fn view(&self) -> Script {
        Script { voice: self.synth@, bindings: bindings_of(self.let_bindings@) }
    }
}

/// The expressions of a list, as plain values, are the list of the
/// expression that holds them.
pub proof fn lemma_list_tree(items: Vec<SExpression>)
    ensures
        SExpression::List(items).tree() == Tree::List(trees(items@)),
{
    assert(SExpression::List(items).tree()->List_0 =~= trees(items@));
}

/// The arguments of a call, as plain values, are the expressions behind
/// the name of the function.
pub proof fn lemma_arguments(list: Seq<SExpression>, from: int)
    requires
        0 <= from <= list.len(),
    ensures
        trees(list).skip(from).len() == list.len() - from,
        forall|i: int|
            0 <= i < list.len() - from ==> #[trigger] trees(list).skip(from)[i] == list[from
                + i].tree(),
        from < list.len() ==> trees(list).skip(from).skip(1) == trees(list).skip(from + 1),
{
    if from < list.len() {
        assert(trees(list).skip(from).skip(1) =~= trees(list).skip(from + 1));
    }
}

impl EvaluationContext {
    /// The evaluation of a new script: a new synth, and no name bound.
    pub fn new(ctx: &mut Context) -> (made: Result<EvaluationContext, LispError>)
        ensures
            only_ids(old(ctx)@, final(ctx)@),
            old(ctx)@.next_id == u32::MAX ==> made is Err && final(ctx)@.next_id == u32::MAX
                && made->Err_0 == LispError::OutOfIds,
            old(ctx)@.next_id < u32::MAX ==> made is Ok && final(ctx)@.next_id == old(ctx)@.next_id
                + 1 && made->Ok_0@ == blank(old(ctx)@.next_id),
    {
        match ctx.new_synth() {
            Ok(synth) => {
                let made = EvaluationContext { synth, let_bindings: Vec::new() };
                proof {
                    assert(made@.bindings =~= Seq::empty());
                    assert(made@.voice.nodes =~= Seq::empty());
                    assert(made@.voice.store =~= Seq::empty());
                    assert(made@.voice.parameters =~= Seq::empty());
                    assert(made@.voice.local =~= Seq::empty());
                }
                Ok(made)
            },
            Err(_) => Err(LispError::OutOfIds),
        }
    }

    /// Appends a node to the synth and returns it as a result.
    pub fn add(&mut self, node: Node) -> (added: Result<EvalResult, LispError>)
        ensures
            match with_node(old(self)@, node) {
                Ok((v, script)) => added == Ok::<EvalResult, LispError>(v) && final(self)@ == script,
                Err(e) => added == Err::<EvalResult, LispError>(e) && final(self)@ == old(self)@,
            },
    {
        if self.synth.instructions.len() >= u32::MAX as usize {
            return Err(LispError::SynthFull);
        }
        let id = self.synth.add_node(node);
        Ok(EvalResult::SynthNode(Input::Node(id)))
    }

    /// Binds a name to a value. An older binding of the name is hidden.
    pub fn bind(&mut self, name: &Vec<char>, value: EvalResult)
        ensures
            final(self)@ == (Script {
                bindings: old(self)@.bindings.push((name@, value)),
                ..old(self)@
            }),
    {
        let copy = slice_to_vec(name.as_slice());
        self.let_bindings.push((copy, value));
        assert(bindings_of(self.let_bindings@) =~= bindings_of(old(self).let_bindings@).push(
            (name@, value),
        ));
    }

    /// Evaluates one expression.
    pub fn evaluate_sexpr<K: Fn(Op) -> Sample>(
        &mut self,
        ctx: &mut Context,
        sexpr: &SExpression,
        k: &K,
    ) -> (r: Result<EvalResult, LispError>)
        requires
            total(k),
        ensures
            only_ids(old(ctx)@, final(ctx)@),
            functional(k) ==> agrees(
                value(
                    sexpr.tree(),
                    old(self)@,
                    old(ctx)@.scene.stage.rate,
                    old(ctx)@.next_id,
                    graph(k),
                ),
                r,
                final(self)@,
                final(ctx)@.next_id,
            ),
        decreases sexpr.tree(), 0nat,
    {
        match sexpr {
            SExpression::List(v) => {
                proof {
                    lemma_list_tree(*v);
                }
                self.execute_function(ctx, v, k)
            },
            SExpression::Number(n) => Ok(EvalResult::Constant(*n)),
            SExpression::Identifier(i) => {
                match find_binding(&self.let_bindings, i) {
                    Some(v) => Ok(v),
                    None => Err(LispError::UnknownIdentifier),
                }
            },
        }
    }

    /// Evaluates a call: a list that starts with the name of a function.
    pub fn execute_function<K: Fn(Op) -> Sample>(
        &mut self,
        ctx: &mut Context,
        list: &Vec<SExpression>,
        k: &K,
    ) -> (r: Result<EvalResult, LispError>)
        requires
            total(k),
        ensures
            only_ids(old(ctx)@, final(ctx)@),
            functional(k) ==> agrees(
                call(
                    trees(list@),
                    old(self)@,
                    old(ctx)@.scene.stage.rate,
                    old(ctx)@.next_id,
                    graph(k),
                ),
                r,
                final(self)@,
                final(ctx)@.next_id,
            ),
        decreases trees(list@), 4nat,
    {
        if list.len() == 0 {
            return Err(LispError::EmptyList);
        }
        let func_name = list[0].expect_ident()?;

        match find_function(func_name) {
            Some(function) => self.apply_function(ctx, function, list, 1, k),
            None => Err(LispError::UnknownFunction),
        }
    }

    /// Evaluates the expressions of `list` from the place `from` on, one
    /// after the other, each to an input.
    pub fn evaluate_inputs<K: Fn(Op) -> Sample>(
        &mut self,
        ctx: &mut Context,
        list: &Vec<SExpression>,
        from: usize,
        k: &K,
    ) -> (r: Result<Vec<Input>, LispError>)
        requires
            total(k),
            from <= list@.len(),
        ensures
            only_ids(old(ctx)@, final(ctx)@),
            r matches Ok(ins) ==> ins@.len() == list@.len() - from,
            functional(k) ==> match inputs(
                trees(list@).skip(from as int),
                old(self)@,
                old(ctx)@.scene.stage.rate,
                old(ctx)@.next_id,
                graph(k),
            ) {
                (Ok((ins, script)), next_id) => r matches Ok(found) && found@ == ins
                    && final(self)@ == script && final(ctx)@.next_id == next_id,
                (Err(e), next_id) => r == Err::<Vec<Input>, LispError>(e) && final(ctx)@.next_id
                    == next_id,
            },
        decreases trees(list@).skip(from as int), 2nat,
    {
        let ghost args = trees(list@).skip(from as int);
        if from == list.len() {
            return Ok(Vec::new());
        }
        proof {
            assert(args[0] == list@[from as int].tree());
            assert(args.skip(1) =~= trees(list@).skip(from + 1));
        }
        let first = self.evaluate_sexpr(ctx, &list[from], k)?;
        let mut others = self.evaluate_inputs(ctx, list, from + 1, k)?;
        let ghost tail = others@;
        let input = first.to_input()?;
        others.insert(0, input);
        proof {
            assert(others@ =~= seq![first.input()] + tail);
        }
        Ok(others)
    }

    /// Builds the chain of a function of many arguments: for each
    /// expression of `list` from the place `from` on, a node that takes
    /// what stands so far and the expression.
    pub fn chain_function<K: Fn(Op) -> Sample>(
        &mut self,
        ctx: &mut Context,
        function: Function,
        first: Input,
        list: &Vec<SExpression>,
        from: usize,
        k: &K,
    ) -> (r: Result<EvalResult, LispError>)
        requires
            total(k),
            from <= list@.len(),
        ensures
            only_ids(old(ctx)@, final(ctx)@),
            functional(k) ==> agrees(
                chain(
                    function,
                    first,
                    trees(list@).skip(from as int),
                    old(self)@,
                    old(ctx)@.scene.stage.rate,
                    old(ctx)@.next_id,
                    graph(k),
                ),
                r,
                final(self)@,
                final(ctx)@.next_id,
            ),
        decreases trees(list@).skip(from as int), 2nat,
    {
        let ghost rest = trees(list@).skip(from as int);
        if from == list.len() {
            return Ok(EvalResult::SynthNode(first));
        }
        proof {
            assert(rest[0] == list@[from as int].tree());
            assert(rest.skip(1) =~= trees(list@).skip(from + 1));
        }
        let next = self.evaluate_sexpr(ctx, &list[from], k)?.to_input()?;
        let node = match function {
            Function::Multiply => Node::Multiply(first, next),
            Function::Add => Node::Add(first, next),
            Function::LowPass => Node::LowPass {
                input: first,
                freq: next,
                prev_result: Sample(ZERO),
            },
            Function::HighPass => Node::HighPass {
                input: first,
                freq: next,
                prev_sample_diff: Sample(ZERO),
            },
            _ => Node::Subtract(first, next),
        };
        let so_far = self.add(node)?.to_input()?;
        self.chain_function(ctx, function, so_far, list, from + 1, k)
    }

    /// Renders a synth into a new local buffer of `samples` samples, and
    /// adds a sampler that plays the buffer.
    pub fn bake<K: Fn(Op) -> Sample>(
        &mut self,
        baked: Synth,
        samples: usize,
        rate: Sample,
        k: &K,
    ) -> (r: Result<EvalResult, LispError>)
        requires
            total(k),
        ensures
            functional(k) ==> match with_bake(old(self)@, baked@, samples, rate, graph(k)) {
                Ok((v, script)) => r == Ok::<EvalResult, LispError>(v) && final(self)@ == script,
                Err(e) => r == Err::<EvalResult, LispError>(e),
            },
    {
        let mut baked = baked;
        let mut eval_ctx = crate::context::EvaluationContext::new(rate, k);
        proof {
            if functional(k) {
                assert(eval_ctx.stage().shared =~= Seq::empty());
                assert(eval_ctx.stage() == bake_stage(graph(k), rate));
                assert(eval_ctx.sample_arena@ =~= Seq::empty());
            }
        }
        if !baked.is_playable(&eval_ctx) {
            return Err(LispError::MalformedSynth);
        }
        if self.synth.local_buffers.len() >= u16::MAX as usize {
            return Err(LispError::TooManyBuffers);
        }
        let mut eval_buffer = Buffer::new(samples);

        baked.evaluate_into_buffer(&mut eval_buffer, &mut eval_ctx, k);
        let buffer_id = self.synth.new_buffer(eval_buffer.data);

        self.add(
            Node::Sampler {
                sampler: BufferSampler::new(buffer_id),
                reset: Gate::new(Input::Literal(Sample(ZERO))),
            },
        )
    }

    /// Evaluates a function on the expressions of `list` from the place
    /// `from` on.
    pub fn apply_function<K: Fn(Op) -> Sample>(
        &mut self,
        ctx: &mut Context,
        function: Function,
        list: &Vec<SExpression>,
        from: usize,
        k: &K,
    ) -> (r: Result<EvalResult, LispError>)
        requires
            total(k),
            from <= list@.len(),
            true,
        ensures
            only_ids(old(ctx)@, final(ctx)@),
            functional(k) ==> agrees(
                apply(
                    function,
                    trees(list@).skip(from as int),
                    old(self)@,
                    old(ctx)@.scene.stage.rate,
                    old(ctx)@.next_id,
                    graph(k),
                ),
                r,
                final(self)@,
                final(ctx)@.next_id,
            ),
        decreases trees(list@).skip(from as int), 4nat,
    {
        match function {
            Function::Multiply | Function::Add | Function::Subtract => self.apply_chain(
                ctx,
                function,
                list,
                from,
                k,
            ),
            Function::Mix | Function::Clamp => self.apply_three(ctx, function, list, from, k),
            Function::Sine | Function::Triangle | Function::Square | Function::Saw => {
                self.apply_wave(ctx, function, list, from, k)
            },
            Function::LowPass | Function::HighPass => self.apply_filter(
                ctx,
                function,
                list,
                from,
                k,
            ),
            Function::EnvAr => self.apply_envelope(ctx, function, list, from, k),
            Function::Bake => self.apply_bake(ctx, function, list, from, k),
        }
    }

    /// `*`, `+` and `-`: a chain of nodes over two arguments or more.
    pub fn apply_chain<K: Fn(Op) -> Sample>(
        &mut self,
        ctx: &mut Context,
        function: Function,
        list: &Vec<SExpression>,
        from: usize,
        k: &K,
    ) -> (r: Result<EvalResult, LispError>)
        requires
            total(k),
            from <= list@.len(),
            function == Function::Multiply || function == Function::Add || function
                == Function::Subtract,
        ensures
            only_ids(old(ctx)@, final(ctx)@),
            functional(k) ==> agrees(
                apply(
                    function,
                    trees(list@).skip(from as int),
                    old(self)@,
                    old(ctx)@.scene.stage.rate,
                    old(ctx)@.next_id,
                    graph(k),
                ),
                r,
                final(self)@,
                final(ctx)@.next_id,
            ),
        decreases trees(list@).skip(from as int), 3nat,
    {
        let count = list.len() - from;
        proof {
            lemma_arguments(list@, from as int);
        }
        if count < 2 {
            return Err(LispError::TooFewArguments { at_least: 2, received: count });
        }
        let first = self.evaluate_sexpr(ctx, &list[from], k)?.to_input()?;
        self.chain_function(ctx, function, first, list, from + 1, k)
    }

    /// `mix` and `clamp`: one node over three arguments.
    pub fn apply_three<K: Fn(Op) -> Sample>(
        &mut self,
        ctx: &mut Context,
        function: Function,
        list: &Vec<SExpression>,
        from: usize,
        k: &K,
    ) -> (r: Result<EvalResult, LispError>)
        requires
            total(k),
            from <= list@.len(),
            function == Function::Mix || function == Function::Clamp,
        ensures
            only_ids(old(ctx)@, final(ctx)@),
            functional(k) ==> agrees(
                apply(
                    function,
                    trees(list@).skip(from as int),
                    old(self)@,
                    old(ctx)@.scene.stage.rate,
                    old(ctx)@.next_id,
                    graph(k),
                ),
                r,
                final(self)@,
                final(ctx)@.next_id,
            ),
        decreases trees(list@).skip(from as int), 3nat,
    {
        let count = list.len() - from;
        proof {
            lemma_arguments(list@, from as int);
        }
        if count != 3 {
            return Err(LispError::WrongArgumentCount { expected: 3, received: count });
        }
        let ins = self.evaluate_inputs(ctx, list, from, k)?;
        match function {
            Function::Mix => self.add(Node::Mix { a: ins[0], b: ins[1], mix: ins[2] }),
            _ => self.add(Node::Clamp { input: ins[0], lb: ins[1], ub: ins[2] }),
        }
    }

    /// The oscillators: one node over a frequency.
    pub fn apply_wave<K: Fn(Op) -> Sample>(
        &mut self,
        ctx: &mut Context,
        function: Function,
        list: &Vec<SExpression>,
        from: usize,
        k: &K,
    ) -> (r: Result<EvalResult, LispError>)
        requires
            total(k),
            from <= list@.len(),
            function == Function::Sine || function == Function::Triangle || function
                == Function::Square || function == Function::Saw,
        ensures
            only_ids(old(ctx)@, final(ctx)@),
            functional(k) ==> agrees(
                apply(
                    function,
                    trees(list@).skip(from as int),
                    old(self)@,
                    old(ctx)@.scene.stage.rate,
                    old(ctx)@.next_id,
                    graph(k),
                ),
                r,
                final(self)@,
                final(ctx)@.next_id,
            ),
        decreases trees(list@).skip(from as int), 3nat,
    {
        let count = list.len() - from;
        proof {
            lemma_arguments(list@, from as int);
        }
        if count != 1 {
            return Err(LispError::WrongArgumentCount { expected: 1, received: count });
        }
        let ins = self.evaluate_inputs(ctx, list, from, k)?;
        let freq = ins[0];
        match function {
            Function::Sine => self.add(Node::Sine(Phase::with_period(freq, Sample(FULL_TURN)))),
            Function::Triangle => self.add(Node::Triangle(Phase::new(freq))),
            Function::Square => self.add(Node::Square(Phase::new(freq))),
            _ => self.add(Node::Saw(Phase::new(freq))),
        }
    }

    /// The filters: one node over a signal and a cutoff.
    pub fn apply_filter<K: Fn(Op) -> Sample>(
        &mut self,
        ctx: &mut Context,
        function: Function,
        list: &Vec<SExpression>,
        from: usize,
        k: &K,
    ) -> (r: Result<EvalResult, LispError>)
        requires
            total(k),
            from <= list@.len(),
            function == Function::LowPass || function == Function::HighPass,
        ensures
            only_ids(old(ctx)@, final(ctx)@),
            functional(k) ==> agrees(
                apply(
                    function,
                    trees(list@).skip(from as int),
                    old(self)@,
                    old(ctx)@.scene.stage.rate,
                    old(ctx)@.next_id,
                    graph(k),
                ),
                r,
                final(self)@,
                final(ctx)@.next_id,
            ),
        decreases trees(list@).skip(from as int), 3nat,
    {
        let count = list.len() - from;
        proof {
            lemma_arguments(list@, from as int);
        }
        if count != 2 {
            return Err(LispError::WrongArgumentCount { expected: 2, received: count });
        }
        let ins = self.evaluate_inputs(ctx, list, from, k)?;
        match function {
            Function::LowPass => self.add(
                Node::LowPass { input: ins[0], freq: ins[1], prev_result: Sample(ZERO) },
            ),
            _ => self.add(
                Node::HighPass { input: ins[0], freq: ins[1], prev_sample_diff: Sample(ZERO) },
            ),
        }
    }

    /// `ar`: an envelope over two constant times and its signal.
    pub fn apply_envelope<K: Fn(Op) -> Sample>(
        &mut self,
        ctx: &mut Context,
        function: Function,
        list: &Vec<SExpression>,
        from: usize,
        k: &K,
    ) -> (r: Result<EvalResult, LispError>)
        requires
            total(k),
            from <= list@.len(),
            function == Function::EnvAr,
        ensures
            only_ids(old(ctx)@, final(ctx)@),
            functional(k) ==> agrees(
                apply(
                    function,
                    trees(list@).skip(from as int),
                    old(self)@,
                    old(ctx)@.scene.stage.rate,
                    old(ctx)@.next_id,
                    graph(k),
                ),
                r,
                final(self)@,
                final(ctx)@.next_id,
            ),
        decreases trees(list@).skip(from as int), 3nat,
    {
        let count = list.len() - from;
        proof {
            lemma_arguments(list@, from as int);
        }
        if count != 3 {
            return Err(LispError::WrongArgumentCount { expected: 3, received: count });
        }
        let attack = self.evaluate_sexpr(ctx, &list[from], k)?.expect_constant()?;
        let release = self.evaluate_sexpr(ctx, &list[from + 1], k)?.expect_constant()?;
        let signal = self.evaluate_sexpr(ctx, &list[from + 2], k)?.to_input()?;
        self.add(Node::EnvAR(AR::over(attack, release, signal, k)))
    }

    /// `bake`: a synth of its own, rendered for a number of seconds into a
    /// buffer that a sampler plays.
    pub fn apply_bake<K: Fn(Op) -> Sample>(
        &mut self,
        ctx: &mut Context,
        function: Function,
        list: &Vec<SExpression>,
        from: usize,
        k: &K,
    ) -> (r: Result<EvalResult, LispError>)
        requires
            total(k),
            from <= list@.len(),
            function == Function::Bake,
        ensures
            only_ids(old(ctx)@, final(ctx)@),
            functional(k) ==> agrees(
                apply(
                    function,
                    trees(list@).skip(from as int),
                    old(self)@,
                    old(ctx)@.scene.stage.rate,
                    old(ctx)@.next_id,
                    graph(k),
                ),
                r,
                final(self)@,
                final(ctx)@.next_id,
            ),
        decreases trees(list@).skip(from as int), 3nat,
    {
        let count = list.len() - from;
        proof {
            lemma_arguments(list@, from as int);
        }
        if count < 2 {
            return Err(LispError::TooFewArguments { at_least: 2, received: count });
        }
        let sample_rate = ctx.get_sample_rate();
        let seconds = self.evaluate_sexpr(ctx, &list[from], k)?.expect_constant()?;
        let samples = ask(k, Op::Mul(seconds, sample_rate)).to_count();

        if samples == 0 {
            return Err(LispError::ZeroLengthBake);
        }
        let synth = evaluate_synth(ctx, list, from + 1, k)?;
        self.bake(synth, samples, sample_rate, k)
    }

    /// Evaluates one of the forms that stand at the top level only, on the
    /// expressions of `list` from the place `from` on.
    pub fn special_form<K: Fn(Op) -> Sample>(
        &mut self,
        ctx: &mut Context,
        kind: Form,
        list: &Vec<SExpression>,
        from: usize,
        k: &K,
    ) -> (r: Result<(), LispError>)
        requires
            total(k),
            from <= list@.len(),
        ensures
            only_ids(old(ctx)@, final(ctx)@),
            functional(k) ==> agrees(
                special(
                    kind,
                    trees(list@).skip(from as int),
                    old(self)@,
                    old(ctx)@.scene.stage.rate,
                    old(ctx)@.next_id,
                    graph(k),
                ),
                r,
                final(self)@,
                final(ctx)@.next_id,
            ),
        decreases trees(list@).skip(from as int), 3nat,
    {
        let count = list.len() - from;
        proof {
            lemma_arguments(list@, from as int);
        }
        match kind {
            Form::Let => {
                if count != 2 {
                    return Err(LispError::WrongArgumentCount { expected: 2, received: count });
                }
                let ident = list[from].expect_ident()?;
                let value = self.evaluate_sexpr(ctx, &list[from + 1], k)?;

                self.bind(ident, value);
                Ok(())
            },
            Form::Gain => {
                if count != 1 {
                    return Err(LispError::WrongArgumentCount { expected: 1, received: count });
                }
                let gain = self.evaluate_sexpr(ctx, &list[from], k)?.expect_constant()?;
                self.synth.set_gain(gain);
                Ok(())
            },
            Form::Output => {
                if count != 1 {
                    return Err(LispError::WrongArgumentCount { expected: 1, received: count });
                }
                let node = self.evaluate_sexpr(ctx, &list[from], k)?;
                let node_id = node.expect_node_id()?;
                self.synth.set_output(node_id);
                Ok(())
            },
            Form::DefStore => {
                if count != 1 {
                    return Err(LispError::WrongArgumentCount { expected: 1, received: count });
                }
                let ident = list[from].expect_ident()?;
                if self.synth.value_store.len() >= u32::MAX as usize {
                    return Err(LispError::SynthFull);
                }
                let store = self.synth.new_value_store();
                self.bind(ident, EvalResult::SynthNode(Input::Store(store)));
                Ok(())
            },
            Form::Store => {
                if count != 2 {
                    return Err(LispError::WrongArgumentCount { expected: 2, received: count });
                }
                let ident = self.evaluate_sexpr(ctx, &list[from], k)?;
                let value = self.evaluate_sexpr(ctx, &list[from + 1], k)?;
                let store = ident.expect_store_id()?;
                let value = value.to_input()?;
                match self.add(Node::StoreWrite(store, value)) {
                    Ok(_) => Ok(()),
                    Err(e) => Err(e),
                }
            },
        }
    }

    /// Evaluates one form at the top level.
    pub fn evaluate_form<K: Fn(Op) -> Sample>(
        &mut self,
        ctx: &mut Context,
        sexpr: &SExpression,
        k: &K,
    ) -> (r: Result<(), LispError>)
        requires
            total(k),
        ensures
            only_ids(old(ctx)@, final(ctx)@),
            functional(k) ==> agrees(
                form(
                    sexpr.tree(),
                    old(self)@,
                    old(ctx)@.scene.stage.rate,
                    old(ctx)@.next_id,
                    graph(k),
                ),
                r,
                final(self)@,
                final(ctx)@.next_id,
            ),
        decreases sexpr.tree(), 1nat,
    {
        match sexpr {
            SExpression::List(list) => {
                proof {
                    lemma_list_tree(*list);
                }
                if list.len() == 0 {
                    return Err(LispError::EmptyList);
                }
                let func_name = list[0].expect_ident()?;

                match find_form(func_name) {
                    Some(kind) => self.special_form(ctx, kind, list, 1, k),
                    None => match self.execute_function(ctx, list, k) {
                        Ok(_) => Ok(()),
                        Err(e) => Err(e),
                    },
                }
            },
            _ => Err(LispError::UnexpectedTopLevel),
        }
    }
}

/// Builds a new synth from the forms of `top_level` from the place `from`
/// on.
pub fn evaluate_synth<K: Fn(Op) -> Sample>(
    ctx: &mut Context,
    top_level: &Vec<SExpression>,
    from: usize,
    k: &K,
) -> (r: Result<Synth, LispError>)
    requires
        total(k),
        from <= top_level@.len(),
    ensures
        only_ids(old(ctx)@, final(ctx)@),
        old(ctx)@.next_id == u32::MAX ==> r is Err && r->Err_0 == LispError::OutOfIds
            && final(ctx)@.next_id == u32::MAX,
        functional(k) && old(ctx)@.next_id < u32::MAX ==> match built(
            trees(top_level@).skip(from as int),
            blank(old(ctx)@.next_id),
            old(ctx)@.scene.stage.rate,
            (old(ctx)@.next_id + 1) as u32,
            graph(k),
        ) {
            (Ok((_, script)), next_id) => r matches Ok(synth) && synth@ == script.voice
                && final(ctx)@.next_id == next_id,
            (Err(e), next_id) => r == Err::<Synth, LispError>(e) && final(ctx)@.next_id == next_id,
        },
    decreases trees(top_level@).skip(from as int), 2nat,
{
    let mut evaluation = EvaluationContext::new(ctx)?;
    let ghost forms = trees(top_level@).skip(from as int);
    let ghost rate = old(ctx)@.scene.stage.rate;
    let ghost whole = built(
        forms,
        blank(old(ctx)@.next_id),
        rate,
        (old(ctx)@.next_id + 1) as u32,
        graph(k),
    );

    let mut i: usize = from;
    proof {
        lemma_arguments(top_level@, from as int);
    }
    while i < top_level.len()
        invariant
            total(k),
            from <= i <= top_level@.len(),
            forms == trees(top_level@).skip(from as int),
            only_ids(old(ctx)@, ctx@),
            rate == old(ctx)@.scene.stage.rate,
            old(ctx)@.next_id < u32::MAX,
            whole == built(
                forms,
                blank(old(ctx)@.next_id),
                rate,
                (old(ctx)@.next_id + 1) as u32,
                graph(k),
            ),
            functional(k) ==> whole == built(
                trees(top_level@).skip(i as int),
                evaluation@,
                rate,
                ctx@.next_id,
                graph(k),
            ),
        decreases top_level@.len() - i,
    {
        let ghost rest = trees(top_level@).skip(i as int);
        let ghost before = evaluation@;
        let ghost id_before = ctx@.next_id;
        proof {
            lemma_arguments(top_level@, i as int);
            assert(rest[0] == top_level@[i as int].tree());
            assert(forms[i - from] == top_level@[i as int].tree());
        }
        match evaluation.evaluate_form(ctx, &top_level[i], k) {
            Ok(_) => {},
            Err(e) => {
                proof {
                    if functional(k) {
                        assert(form(rest[0], before, rate, id_before, graph(k)).0 == Err::<
                            ((), Script),
                            LispError,
                        >(e));
                        assert(built(rest, before, rate, id_before, graph(k)).0 == Err::<
                            ((), Script),
                            LispError,
                        >(e));
                    }
                }
                return Err(e);
            },
        }
        i = i + 1;
    }

    Ok(evaluation.synth)
}

/// The text without its comments. A comment runs from a semicolon to the
/// end of its line; the end of the line stays.
pub open spec fn uncommented(text: Seq<char>, in_comment: bool) -> Seq<char>
    decreases text.len(),
{
    if text.len() == 0 {
        Seq::empty()
    } else if text[0] == '\n' {
        seq!['\n'] + uncommented(text.skip(1), false)
    } else if in_comment || text[0] == ';' {
        uncommented(text.skip(1), true)
    } else {
        seq![text[0]] + uncommented(text.skip(1), false)
    }
}

/// Takes the comments out of a text.
pub fn strip_comments(input: &[char]) -> (text: Vec<char>)
    ensures
        text@ == uncommented(input@, false),
{
    let mut text: Vec<char> = Vec::new();
    let mut in_comment = false;
    let mut i: usize = 0;
    proof {
        assert(input@.skip(0) =~= input@);
        assert(text@ + uncommented(input@, false) =~= uncommented(input@, false));
    }
    while i < input.len()
        invariant
            i <= input@.len(),
            text@ + uncommented(input@.skip(i as int), in_comment) == uncommented(input@, false),
        decreases input@.len() - i,
    {
        let c = input[i];
        let ghost rest = input@.skip(i as int);
        let ghost before = text@;
        proof {
            assert(rest[0] == c);
            assert(rest.skip(1) =~= input@.skip(i + 1));
        }
        if c == '\n' {
            in_comment = false;
            text.push(c);
            proof {
                assert(text@ + uncommented(rest.skip(1), false) =~= before + (seq!['\n']
                    + uncommented(rest.skip(1), false)));
            }
        } else if in_comment || c == ';' {
            in_comment = true;
        } else {
            text.push(c);
            proof {
                assert(text@ + uncommented(rest.skip(1), false) =~= before + (seq![c]
                    + uncommented(rest.skip(1), false)));
            }
        }
        i = i + 1;
    }
    proof {
        assert(text@ + Seq::<char>::empty() =~= text@);
    }
    text
}

/// What a script does to a context, and what comes of it: the text is
/// read without its comments, a new synth is built from its forms, and the
/// synth is added to the active ones. A script that fails leaves the
/// context as it was, but for the ids that it has used.
pub open spec fn evaluated(desk: Desk, text: Seq<char>, words: Lexicon, f: Arithmetic) -> (
    Result<(), LispError>,
    Desk,
) {
    match expressions(trimmed(uncommented(text, false)), words) {
        Err(e) => (Err(e), desk),
        Ok(forms) => {
            if desk.next_id == u32::MAX {
                (Err(LispError::OutOfIds), desk)
            } else {
                match built(
                    forms,
                    blank(desk.next_id),
                    desk.scene.stage.rate,
                    (desk.next_id + 1) as u32,
                    f,
                ) {
                    (Err(e), next_id) => (Err(e), Desk { next_id, ..desk }),
                    (Ok((_, script)), next_id) => {
                        if script.voice.playable(desk.scene.arena, desk.scene.stage) {
                            (
                                Ok(()),
                                Desk {
                                    next_id,
                                    scene: Scene {
                                        voices: desk.scene.voices.push(script.voice),
                                        ..desk.scene
                                    },
                                    ..desk
                                },
                            )
                        } else {
                            (Err(LispError::MalformedSynth), Desk { next_id, ..desk })
                        }
                    },
                }
            }
        },
    }
}

/// Reads a script, builds the synth that it describes, and adds the synth
/// to the active ones of the context.
pub fn evaluate<K: Fn(Op) -> Sample, N: Fn(Vec<char>) -> Option<Sample>>(
    ctx: &mut Context,
    input: &[char],
    k: &K,
    numbers: &N,
) -> (r: Result<(), LispError>)
    requires
        total(k),
        accepts_all(numbers),
        old(ctx).wf(),
    ensures
        final(ctx).wf(),
        functional(k) && by_characters(numbers) ==> (r, final(ctx)@) == evaluated(
            old(ctx)@,
            input@,
            lexicon(numbers),
            graph(k),
        ),
{
    let comment_free_input = strip_comments(input);

    let top_level_exprs = ExprReader::new(comment_free_input.as_slice()).parse_toplevel(
        numbers,
    )?;
    proof {
        assert(trees(top_level_exprs@).skip(0) =~= trees(top_level_exprs@));
    }

    let synth = evaluate_synth(ctx, &top_level_exprs, 0, k)?;
    match ctx.push_synth(synth) {
        Ok(_) => Ok(()),
        Err(_) => Err(LispError::MalformedSynth),
    }
}

} // verus!
