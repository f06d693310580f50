//! What holds of every synth that a script builds.
use vstd::prelude::*;
use crate::buffer::{silence, Shelf};
use crate::context::Stage;
use crate::kernel::Arithmetic;
use crate::lisp_frontend::{
    apply, bake_stage, blank, bound, built, call, chain, evaluated, form, form_named,
    function_named, inputs, pair_node, special, value, wave_node, with_bake, with_node,
    EvalResult, Form, Function, Outcome, Script,
};
use crate::pipeline::Desk;
use crate::reader::{Lexicon, LispError};
use crate::node::{Input, Node, Reading};
use crate::reader::Tree;
use crate::sample::{Sample, ZERO};
use crate::synth::{
    grown, lemma_playable_by_lengths, lemma_ready_by_lengths, mixed_into, Setting, Voice,
};

verus! {

/// A stage without a shared buffer.
pub open spec fn bare() -> Stage {
    Stage { rate: Sample(ZERO), dt: Sample(ZERO), shared: Seq::empty() }
}

/// What the inputs of a voice are resolved against where the arena has
/// just a slot for every instruction.
pub open spec fn own_reading(voice: Voice) -> Reading {
    voice.start(Seq::empty()).reading(voice.setting(bare()))
}

/// The buffers of the voice alone.
pub open spec fn own_shelf(voice: Voice) -> Shelf {
    voice.setting(bare()).shelf
}

/// The script names nothing that is not there: the synth as far as it is
/// built can be evaluated where nothing is shared, and what is bound
/// resolves in it.
pub open spec fn sound(script: Script) -> bool {
    &&& script.voice.playable(Seq::empty(), bare())
    &&& script.voice.parameters.len() == 0
    &&& forall|i: int|
        0 <= i < script.bindings.len() ==> (#[trigger] script.bindings[i]).1.input().resolves(
            own_reading(script.voice),
        )
}

/// `after` has all that `before` has: as many nodes and registers or more,
/// and the same buffers in front of further ones.
pub open spec fn grows(before: Script, after: Script) -> bool {
    &&& before.voice.nodes.len() <= after.voice.nodes.len()
    &&& before.voice.store.len() <= after.voice.store.len()
    &&& before.voice.local.len() <= after.voice.local.len()
}

/// The result resolves in the synth of the script.
pub open spec fn fits(v: EvalResult, script: Script) -> bool {
    v.input().resolves(own_reading(script.voice))
}

/// What resolves in a script resolves in every script that has grown from
/// it.
pub proof fn lemma_fits_grown(v: EvalResult, before: Script, after: Script)
    requires
        fits(v, before),
        grows(before, after),
        before.voice.parameters.len() == 0,
    ensures
        fits(v, after),
{
}

/// A node whose names are all there can be added to a sound script, and
/// leaves it sound.
pub proof fn lemma_with_node(script: Script, node: Node)
    requires
        sound(script),
        node.ready(own_reading(script.voice), own_shelf(script.voice)),
    ensures
        with_node(script, node) matches Ok((v, after)) ==> sound(after) && grows(script, after)
            && fits(v, after) && after.bindings == script.bindings && after.voice.local
            == script.voice.local,
{
    if with_node(script, node) is Ok {
        let after = with_node(script, node)->Ok_0.1;
        let old_frame = script.voice.start(Seq::empty());
        let new_frame = after.voice.start(Seq::empty());
        assert forall|i: int| 0 <= i < new_frame.nodes.len() implies (#[trigger] new_frame.nodes[i]).ready(
            new_frame.reading(after.voice.setting(bare())),
            after.voice.setting(bare()).shelf,
        ) by {
            let n = if i < script.voice.nodes.len() {
                old_frame.nodes[i]
            } else {
                node
            };
            lemma_ready_by_lengths(
                n,
                own_reading(script.voice),
                own_reading(after.voice),
                own_shelf(script.voice),
                own_shelf(after.voice),
            );
        }
        assert forall|i: int| 0 <= i < after.bindings.len() implies (
        #[trigger] after.bindings[i]).1.input().resolves(own_reading(after.voice)) by {
            lemma_fits_grown(script.bindings[i].1, script, after);
        }
    }
}

/// The outcome of a step on a sound script: where it has a result, the
/// script after it is sound and has grown from the one before; where it
/// has failed, then not because a synth was malformed.
pub open spec fn stays_sound<T>(before: Script, outcome: Outcome<T>) -> bool {
    match outcome.0 {
        Ok((_, after)) => sound(after) && grows(before, after),
        Err(e) => e != LispError::MalformedSynth,
    }
}

/// The result of the outcome, where it has one, resolves in the script
/// after it.
pub open spec fn result_fits(outcome: Outcome<EvalResult>) -> bool {
    outcome.0 matches Ok((v, after)) ==> fits(v, after)
}

/// What is bound to a name is the value of one of the bindings.
pub proof fn lemma_bound(bindings: Seq<(Seq<char>, EvalResult)>, name: Seq<char>)
    ensures
        bound(bindings, name) matches Some(v) ==> exists|i: int|
            0 <= i < bindings.len() && (#[trigger] bindings[i]).1 == v,
    decreases bindings.len(),
{
    if bindings.len() > 0 {
        if bindings.last().0 == name {
            assert(bindings[bindings.len() - 1].1 == bindings.last().1);
        } else {
            lemma_bound(bindings.drop_last(), name);
            if bound(bindings, name) is Some {
                let v = bound(bindings, name)->Some_0;
                let i = choose|i: int|
                    0 <= i < bindings.drop_last().len() && (#[trigger] bindings.drop_last()[i]).1
                        == v;
                assert(bindings[i].1 == v);
            }
        }
    }
}

/// A new script is sound.
pub proof fn lemma_blank_sound(id: u32)
    ensures
        sound(blank(id)),
{
}

/// A sound script that is given a baked buffer and its sampler stays
/// sound.
pub proof fn lemma_with_bake(script: Script, baked: Voice, samples: usize, rate: Sample, f: Arithmetic)
    requires
        sound(script),
        samples > 0,
        baked.playable(Seq::empty(), bare()),
    ensures
        with_bake(script, baked, samples, rate, f) matches Ok((v, after)) ==> sound(after)
            && grows(script, after) && fits(v, after),
        with_bake(script, baked, samples, rate, f) matches Err(e) ==> e
            != LispError::MalformedSynth,
{
    let stage = bake_stage(f, rate);
    lemma_playable_by_lengths(baked, baked, Seq::empty(), bare(), Seq::empty(), stage);
    if script.voice.local.len() < u16::MAX {
        let rendered = mixed_into(
            f,
            baked.start(Seq::empty()),
            baked.setting(stage),
            baked.output_node,
            baked.gain,
            silence(samples as nat),
        );
        let held = Script {
            voice: Voice { local: script.voice.local.push(rendered), ..script.voice },
            ..script
        };
        lemma_playable_by_shelf(script.voice, held.voice);
        assert forall|i: int| 0 <= i < held.bindings.len() implies (
        #[trigger] held.bindings[i]).1.input().resolves(own_reading(held.voice)) by {
            lemma_fits_grown(script.bindings[i].1, script, held);
        }
        let node = Node::Sampler {
            sampler: crate::buffer::BufferSampler(
                crate::buffer::Sequencer {
                    buffer_id: crate::buffer::BufferID(
                        crate::buffer::BufferUsageType::Local,
                        script.voice.local.len() as u16,
                    ),
                    position: 0,
                },
            ),
            reset: crate::gate::Gate::with(Input::Literal(Sample(ZERO))),
        };
        assert(own_shelf(held.voice).content(
            crate::buffer::BufferID(
                crate::buffer::BufferUsageType::Local,
                script.voice.local.len() as u16,
            ),
        ) == rendered);
        lemma_with_node(held, node);
    }
}

/// A voice that is given a further local buffer can be evaluated as
/// before.
pub proof fn lemma_playable_by_shelf(before: Voice, after: Voice)
    requires
        before.playable(Seq::empty(), bare()),
        after.nodes == before.nodes,
        after.store == before.store,
        after.parameters == before.parameters,
        after.output_node == before.output_node,
        after.local.len() >= before.local.len(),
        forall|i: int| 0 <= i < before.local.len() ==> after.local[i] == before.local[i],
    ensures
        after.playable(Seq::empty(), bare()),
{
    let old_frame = before.start(Seq::empty());
    let new_frame = after.start(Seq::empty());
    assert forall|i: int| 0 <= i < new_frame.nodes.len() implies (#[trigger] new_frame.nodes[i]).ready(
        new_frame.reading(after.setting(bare())),
        after.setting(bare()).shelf,
    ) by {
        lemma_ready_by_lengths(
            old_frame.nodes[i],
            own_reading(before),
            own_reading(after),
            own_shelf(before),
            own_shelf(after),
        );
    }
}

/// Evaluation keeps a sound script sound, and what it gives resolves.
pub proof fn lemma_value(tree: Tree, script: Script, rate: Sample, next_id: u32, f: Arithmetic)
    requires
        sound(script),
    ensures
        stays_sound(script, value(tree, script, rate, next_id, f)),
        result_fits(value(tree, script, rate, next_id, f)),
    decreases tree, 0nat,
{
    match tree {
        Tree::Number(_) => {},
        Tree::Identifier(name) => {
            lemma_bound(script.bindings, name);
        },
        Tree::List(items) => {
            lemma_call(items, script, rate, next_id, f);
        },
    }
}

/// A call keeps a sound script sound, and what it gives resolves.
pub proof fn lemma_call(items: Seq<Tree>, script: Script, rate: Sample, next_id: u32, f: Arithmetic)
    requires
        sound(script),
    ensures
        stays_sound(script, call(items, script, rate, next_id, f)),
        result_fits(call(items, script, rate, next_id, f)),
    decreases items, 4nat,
{
    if items.len() > 0 {
        match items[0] {
            Tree::Identifier(name) => {
                match function_named(name) {
                    Some(function) => {
                        lemma_apply(function, items.skip(1), script, rate, next_id, f);
                    },
                    None => {},
                }
            },
            _ => {},
        }
    }
}

/// The arguments of a call keep a sound script sound, and the inputs they
/// give resolve, one for each argument.
pub proof fn lemma_inputs(args: Seq<Tree>, script: Script, rate: Sample, next_id: u32, f: Arithmetic)
    requires
        sound(script),
    ensures
        stays_sound(script, inputs(args, script, rate, next_id, f)),
        inputs(args, script, rate, next_id, f).0 matches Ok((ins, after)) ==> ins.len()
            == args.len() && forall|j: int|
            0 <= j < ins.len() ==> (#[trigger] ins[j]).resolves(own_reading(after.voice)),
    decreases args, 2nat,
{
    if args.len() > 0 {
        lemma_value(args[0], script, rate, next_id, f);
        match value(args[0], script, rate, next_id, f) {
            (Ok((first, middle)), next_id) => {
                lemma_inputs(args.skip(1), middle, rate, next_id, f);
                match inputs(args.skip(1), middle, rate, next_id, f) {
                    (Ok((others, after)), _) => {
                        lemma_fits_grown(first, middle, after);
                        let ins = seq![first.input()] + others;
                        assert forall|j: int| 0 <= j < ins.len() implies (#[trigger] ins[j]).resolves(
                            own_reading(after.voice),
                        ) by {
                            if j > 0 {
                                assert(ins[j] == others[j - 1]);
                            }
                        }
                    },
                    _ => {},
                }
            },
            _ => {},
        }
    }
}

/// A chain keeps a sound script sound, and what it gives resolves.
pub proof fn lemma_chain(
    function: Function,
    so_far: Input,
    rest: Seq<Tree>,
    script: Script,
    rate: Sample,
    next_id: u32,
    f: Arithmetic,
)
    requires
        sound(script),
        so_far.resolves(own_reading(script.voice)),
    ensures
        stays_sound(script, chain(function, so_far, rest, script, rate, next_id, f)),
        result_fits(chain(function, so_far, rest, script, rate, next_id, f)),
    decreases rest, 2nat,
{
    if rest.len() > 0 {
        lemma_value(rest[0], script, rate, next_id, f);
        match value(rest[0], script, rate, next_id, f) {
            (Ok((next, middle)), next_id) => {
                lemma_fits_grown(EvalResult::SynthNode(so_far), script, middle);
                let node = pair_node(function, so_far, next.input());
                lemma_with_node(middle, node);
                match with_node(middle, node) {
                    Ok((made, after)) => {
                        lemma_chain(function, made.input(), rest.skip(1), after, rate, next_id, f);
                    },
                    _ => {},
                }
            },
            _ => {},
        }
    }
}

/// A function keeps a sound script sound, and what it gives resolves.
pub proof fn lemma_apply(
    function: Function,
    args: Seq<Tree>,
    script: Script,
    rate: Sample,
    next_id: u32,
    f: Arithmetic,
)
    requires
        sound(script),
    ensures
        stays_sound(script, apply(function, args, script, rate, next_id, f)),
        result_fits(apply(function, args, script, rate, next_id, f)),
    decreases args, 3nat,
{
    match function {
        Function::Multiply | Function::Add | Function::Subtract => {
            if args.len() >= 2 {
                lemma_value(args[0], script, rate, next_id, f);
                match value(args[0], script, rate, next_id, f) {
                    (Ok((first, middle)), next_id) => {
                        lemma_chain(
                            function,
                            first.input(),
                            args.skip(1),
                            middle,
                            rate,
                            next_id,
                            f,
                        );
                    },
                    _ => {},
                }
            }
        },
        Function::Mix | Function::Clamp => {
            if args.len() == 3 {
                lemma_inputs(args, script, rate, next_id, f);
                match inputs(args, script, rate, next_id, f) {
                    (Ok((ins, middle)), _) => {
                        let node = if function == Function::Mix {
                            Node::Mix { a: ins[0], b: ins[1], mix: ins[2] }
                        } else {
                            Node::Clamp { input: ins[0], lb: ins[1], ub: ins[2] }
                        };
                        lemma_with_node(middle, node);
                    },
                    _ => {},
                }
            }
        },
        Function::Sine | Function::Triangle | Function::Square | Function::Saw => {
            if args.len() == 1 {
                lemma_inputs(args, script, rate, next_id, f);
                match inputs(args, script, rate, next_id, f) {
                    (Ok((ins, middle)), _) => {
                        lemma_with_node(middle, wave_node(function, ins[0]));
                    },
                    _ => {},
                }
            }
        },
        Function::LowPass | Function::HighPass => {
            if args.len() == 2 {
                lemma_inputs(args, script, rate, next_id, f);
                match inputs(args, script, rate, next_id, f) {
                    (Ok((ins, middle)), _) => {
                        lemma_with_node(middle, pair_node(function, ins[0], ins[1]));
                    },
                    _ => {},
                }
            }
        },
        Function::EnvAr => {
            if args.len() == 3 {
                lemma_value(args[0], script, rate, next_id, f);
                match value(args[0], script, rate, next_id, f) {
                    (Ok((EvalResult::Constant(attack), one)), next_id) => {
                        lemma_value(args[1], one, rate, next_id, f);
                        match value(args[1], one, rate, next_id, f) {
                            (Ok((EvalResult::Constant(release), two)), next_id) => {
                                lemma_value(args[2], two, rate, next_id, f);
                                match value(args[2], two, rate, next_id, f) {
                                    (Ok((signal, three)), _) => {
                                        lemma_with_node(
                                            three,
                                            Node::EnvAR(
                                                crate::envelope::AR::made(
                                                    f,
                                                    attack,
                                                    release,
                                                    signal.input(),
                                                ),
                                            ),
                                        );
                                    },
                                    _ => {},
                                }
                            },
                            _ => {},
                        }
                    },
                    _ => {},
                }
            }
        },
        Function::Bake => {
            if args.len() >= 2 {
                lemma_value(args[0], script, rate, next_id, f);
                match value(args[0], script, rate, next_id, f) {
                    (Ok((EvalResult::Constant(seconds), middle)), next_id) => {
                        let samples = f(crate::kernel::Op::Mul(seconds, rate)).count();
                        if samples != 0 && next_id != u32::MAX {
                            lemma_blank_sound(next_id);
                            lemma_built(
                                args.skip(1),
                                blank(next_id),
                                rate,
                                (next_id + 1) as u32,
                                f,
                            );
                            match built(
                                args.skip(1),
                                blank(next_id),
                                rate,
                                (next_id + 1) as u32,
                                f,
                            ) {
                                (Ok((_, baked)), _) => {
                                    lemma_with_bake(middle, baked.voice, samples, rate, f);
                                },
                                _ => {},
                            }
                        }
                    },
                    _ => {},
                }
            }
        },
    }
}

/// A form keeps a sound script sound.
pub proof fn lemma_form(tree: Tree, script: Script, rate: Sample, next_id: u32, f: Arithmetic)
    requires
        sound(script),
    ensures
        stays_sound(script, form(tree, script, rate, next_id, f)),
    decreases tree, 1nat,
{
    match tree {
        Tree::List(items) => {
            if items.len() > 0 {
                match items[0] {
                    Tree::Identifier(name) => {
                        match form_named(name) {
                            Some(kind) => {
                                lemma_special(kind, items.skip(1), script, rate, next_id, f);
                            },
                            None => {
                                lemma_call(items, script, rate, next_id, f);
                            },
                        }
                    },
                    _ => {},
                }
            }
        },
        _ => {},
    }
}

/// A form of the top level keeps a sound script sound.
pub proof fn lemma_special(
    kind: Form,
    args: Seq<Tree>,
    script: Script,
    rate: Sample,
    next_id: u32,
    f: Arithmetic,
)
    requires
        sound(script),
    ensures
        stays_sound(script, special(kind, args, script, rate, next_id, f)),
    decreases args, 3nat,
{
    match kind {
        Form::Let => {
            if args.len() == 2 {
                match args[0] {
                    Tree::Identifier(name) => {
                        lemma_value(args[1], script, rate, next_id, f);
                        match value(args[1], script, rate, next_id, f) {
                            (Ok((v, middle)), _) => {
                                let after = Script {
                                    bindings: middle.bindings.push((name, v)),
                                    ..middle
                                };
                                assert forall|i: int| 0 <= i < after.bindings.len() implies (
                                #[trigger] after.bindings[i]).1.input().resolves(
                                    own_reading(after.voice),
                                ) by {
                                    if i < middle.bindings.len() {
                                        assert(after.bindings[i] == middle.bindings[i]);
                                    }
                                }
                            },
                            _ => {},
                        }
                    },
                    _ => {},
                }
            }
        },
        Form::Gain => {
            if args.len() == 1 {
                lemma_value(args[0], script, rate, next_id, f);
                match value(args[0], script, rate, next_id, f) {
                    (Ok((EvalResult::Constant(gain), middle)), _) => {
                        let after = Script { voice: Voice { gain, ..middle.voice }, ..middle };
                        lemma_playable_by_shelf(middle.voice, after.voice);
                        assert forall|i: int| 0 <= i < after.bindings.len() implies (
                        #[trigger] after.bindings[i]).1.input().resolves(
                            own_reading(after.voice),
                        ) by {
                            lemma_fits_grown(middle.bindings[i].1, middle, after);
                        }
                    },
                    _ => {},
                }
            }
        },
        Form::Output => {
            if args.len() == 1 {
                lemma_value(args[0], script, rate, next_id, f);
                match value(args[0], script, rate, next_id, f) {
                    (Ok((EvalResult::SynthNode(Input::Node(id)), middle)), _) => {
                        let after = Script {
                            voice: Voice { output_node: Some(id.0 as usize), ..middle.voice },
                            ..middle
                        };
                        assert(fits(EvalResult::SynthNode(Input::Node(id)), middle));
                        let old_frame = middle.voice.start(Seq::empty());
                        let new_frame = after.voice.start(Seq::empty());
                        assert forall|i: int| 0 <= i < new_frame.nodes.len() implies (
                        #[trigger] new_frame.nodes[i]).ready(
                            new_frame.reading(after.voice.setting(bare())),
                            after.voice.setting(bare()).shelf,
                        ) by {
                            lemma_ready_by_lengths(
                                old_frame.nodes[i],
                                own_reading(middle.voice),
                                own_reading(after.voice),
                                own_shelf(middle.voice),
                                own_shelf(after.voice),
                            );
                        }
                        assert forall|i: int| 0 <= i < after.bindings.len() implies (
                        #[trigger] after.bindings[i]).1.input().resolves(
                            own_reading(after.voice),
                        ) by {
                            lemma_fits_grown(middle.bindings[i].1, middle, after);
                        }
                    },
                    _ => {},
                }
            }
        },
        Form::DefStore => {
            if args.len() == 1 {
                match args[0] {
                    Tree::Identifier(name) => {
                        if script.voice.store.len() < u32::MAX {
                            let held = Script {
                                voice: Voice {
                                    store: script.voice.store.push(Sample(ZERO)),
                                    ..script.voice
                                },
                                ..script
                            };
                            let old_frame = script.voice.start(Seq::empty());
                            let new_frame = held.voice.start(Seq::empty());
                            assert forall|i: int| 0 <= i < new_frame.nodes.len() implies (
                            #[trigger] new_frame.nodes[i]).ready(
                                new_frame.reading(held.voice.setting(bare())),
                                held.voice.setting(bare()).shelf,
                            ) by {
                                lemma_ready_by_lengths(
                                    old_frame.nodes[i],
                                    own_reading(script.voice),
                                    own_reading(held.voice),
                                    own_shelf(script.voice),
                                    own_shelf(held.voice),
                                );
                            }
                            let v = EvalResult::SynthNode(
                                Input::Store(
                                    crate::synth::StoreID(script.voice.store.len() as u32),
                                ),
                            );
                            let after = Script {
                                bindings: script.bindings.push((name, v)),
                                ..held
                            };
                            assert forall|i: int| 0 <= i < after.bindings.len() implies (
                            #[trigger] after.bindings[i]).1.input().resolves(
                                own_reading(after.voice),
                            ) by {
                                if i < script.bindings.len() {
                                    assert(after.bindings[i] == script.bindings[i]);
                                    lemma_fits_grown(script.bindings[i].1, script, after);
                                }
                            }
                        }
                    },
                    _ => {},
                }
            }
        },
        Form::Store => {
            if args.len() == 2 {
                lemma_value(args[0], script, rate, next_id, f);
                match value(args[0], script, rate, next_id, f) {
                    (Ok((register, one)), next_id) => {
                        lemma_value(args[1], one, rate, next_id, f);
                        match value(args[1], one, rate, next_id, f) {
                            (Ok((v, two)), _) => {
                                lemma_fits_grown(register, one, two);
                                match register {
                                    EvalResult::SynthNode(Input::Store(id)) => {
                                        lemma_with_node(two, Node::StoreWrite(id, v.input()));
                                    },
                                    _ => {},
                                }
                            },
                            _ => {},
                        }
                    },
                    _ => {},
                }
            }
        },
    }
}

/// The forms of a script keep a sound script sound.
pub proof fn lemma_built(forms: Seq<Tree>, script: Script, rate: Sample, next_id: u32, f: Arithmetic)
    requires
        sound(script),
    ensures
        stays_sound(script, built(forms, script, rate, next_id, f)),
    decreases forms, 2nat,
{
    if forms.len() > 0 {
        lemma_form(forms[0], script, rate, next_id, f);
        match form(forms[0], script, rate, next_id, f) {
            (Ok((_, middle)), next_id) => {
                lemma_built(forms.skip(1), middle, rate, next_id, f);
            },
            _ => {},
        }
    }
}

/// Every synth that a script builds can be evaluated, on every stage and
/// over every arena.
pub proof fn lemma_scripts_build_playable_synths(
    forms: Seq<Tree>,
    id: u32,
    rate: Sample,
    next_id: u32,
    f: Arithmetic,
    arena: Seq<Sample>,
    stage: Stage,
)
    ensures
        built(forms, blank(id), rate, next_id, f).0 matches Ok((_, script))
            ==> script.voice.playable(arena, stage),
        built(forms, blank(id), rate, next_id, f).0 matches Err(e) ==> e
            != LispError::MalformedSynth,
{
    lemma_blank_sound(id);
    lemma_built(forms, blank(id), rate, next_id, f);
    match built(forms, blank(id), rate, next_id, f).0 {
        Ok((_, script)) => {
            lemma_playable_by_lengths(
                script.voice,
                script.voice,
                Seq::empty(),
                bare(),
                arena,
                stage,
            );
        },
        _ => {},
    }
}

/// No script is refused because the synth that it builds is malformed: a
/// script that is read and built gets its synth into the context.
pub proof fn lemma_scripts_are_never_malformed(
    desk: Desk,
    text: Seq<char>,
    words: Lexicon,
    f: Arithmetic,
)
    ensures
        evaluated(desk, text, words, f).0 != Err::<(), LispError>(LispError::MalformedSynth),
{
    match crate::reader::expressions(
        crate::reader::trimmed(crate::lisp_frontend::uncommented(text, false)),
        words,
    ) {
        Ok(forms) => {
            if desk.next_id != u32::MAX {
                lemma_scripts_build_playable_synths(
                    forms,
                    desk.next_id,
                    desk.scene.stage.rate,
                    (desk.next_id + 1) as u32,
                    f,
                    desk.scene.arena,
                    desk.scene.stage,
                );
            }
        },
        Err(e) => {
            crate::reader::lemma_reader_errors(
                crate::reader::trimmed(crate::lisp_frontend::uncommented(text, false)),
                words,
            );
        },
    }
}

} // verus!
