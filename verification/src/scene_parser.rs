//! The scene description language: a text of one command per line, read
//! into the picture's settings and the list of steps that build the scene.
//!
//! Real numbers are not read here. A step names each real argument by the
//! span of the text that holds it.

use crate::numbers::{decimal_u32, parse_decimal};
use crate::tokens::{
    is_word, lemma_token_spans, span_bytes, spans_within, token_spans, tokenize, Span,
};
use vstd::prelude::*;
use vstd::string::{StrSliceExecFns, StringSliceAdditionalSpecFns};

verus! {

/// The commands of the language. A line whose first word is none of them is
/// `Unrecognized`.
#[derive(Clone, Copy, Debug, PartialEq, Eq, Structural)]
pub enum Command {
    Break,
    Size,
    MaxDepth,
    Output,
    Camera,
    Sphere,
    MaxVerts,
    Vertex,
    Tri,
    Translate,
    Rotate,
    Scale,
    PushTransform,
    PopTransform,
    Directional,
    Point,
    Attenuation,
    Ambient,
    Diffuse,
    Specular,
    Shininess,
    Emission,
    Unrecognized,
}

/// Why a text is not a scene description.
#[derive(Clone, Copy, Debug, PartialEq, Eq, Structural)]
pub enum ErrorKind {
    /// A command has fewer arguments than it takes.
    MissingArgument,
    /// An argument that must be an unsigned 32-bit number is none.
    InvalidInteger,
    /// A triangle names a vertex that no line before it has declared.
    VertexOutOfRange,
    /// A command needs the current transform and every transform was popped.
    EmptyTransformStack,
}

/// An error and the line that it stands in, counted from 0.
#[derive(Clone, Copy, Debug, PartialEq, Eq, Structural)]
pub struct ParseError {
    pub line: usize,
    pub kind: ErrorKind,
}

/// The command that a word names.
pub open spec fn command_of(word: Seq<u8>) -> Command {
    if word == "break".spec_bytes() {
        Command::Break
    } else if word == "size".spec_bytes() {
        Command::Size
    } else if word == "maxdepth".spec_bytes() {
        Command::MaxDepth
    } else if word == "output".spec_bytes() {
        Command::Output
    } else if word == "camera".spec_bytes() {
        Command::Camera
    } else if word == "sphere".spec_bytes() {
        Command::Sphere
    } else if word == "maxverts".spec_bytes() {
        Command::MaxVerts
    } else if word == "vertex".spec_bytes() {
        Command::Vertex
    } else if word == "tri".spec_bytes() {
        Command::Tri
    } else if word == "translate".spec_bytes() {
        Command::Translate
    } else if word == "rotate".spec_bytes() {
        Command::Rotate
    } else if word == "scale".spec_bytes() {
        Command::Scale
    } else if word == "pushTransform".spec_bytes() {
        Command::PushTransform
    } else if word == "popTransform".spec_bytes() {
        Command::PopTransform
    } else if word == "directional".spec_bytes() {
        Command::Directional
    } else if word == "point".spec_bytes() {
        Command::Point
    } else if word == "attenuation".spec_bytes() {
        Command::Attenuation
    } else if word == "ambient".spec_bytes() {
        Command::Ambient
    } else if word == "diffuse".spec_bytes() {
        Command::Diffuse
    } else if word == "specular".spec_bytes() {
        Command::Specular
    } else if word == "shininess".spec_bytes() {
        Command::Shininess
    } else if word == "emission".spec_bytes() {
        Command::Emission
    } else {
        Command::Unrecognized
    }
}

/// How many real arguments a command takes.
pub open spec fn real_arity(command: Command) -> nat {
    match command {
        Command::Camera => 10,
        Command::Sphere => 4,
        Command::Vertex => 3,
        Command::Translate => 3,
        Command::Rotate => 4,
        Command::Scale => 3,
        Command::Directional => 6,
        Command::Point => 6,
        Command::Attenuation => 3,
        Command::Ambient => 3,
        Command::Diffuse => 3,
        Command::Specular => 3,
        Command::Shininess => 1,
        Command::Emission => 3,
        _ => 0,
    }
}

/// Whether the bytes of `span` are those of `word`.
fn word_is(text: &[u8], span: Span, word: &str) -> (r: bool)
    requires
        span.start <= span.end <= text@.len(),
    ensures
        r == (span_bytes(text@, span) == word.spec_bytes()),
{
    let w = word.as_bytes();
    if w.len() != span.end - span.start {
        return false;
    }
    let mut i: usize = 0;
    while i < w.len()
        invariant
            span.start <= span.end <= text@.len(),
            w@ == word.spec_bytes(),
            w@.len() == span.end - span.start,
            i <= w@.len(),
            forall|k: int| 0 <= k < i ==> text@[span.start + k] == w@[k],
        decreases w@.len() - i,
    {
        if text[span.start + i] != w[i] {
            assert(span_bytes(text@, span)[i as int] != w@[i as int]);
            return false;
        }
        i = i + 1;
    }
    assert(span_bytes(text@, span) =~= w@);
    true
}

/// The command that the word in `span` names.
pub fn classify(text: &[u8], span: Span) -> (command: Command)
    requires
        span.start <= span.end <= text@.len(),
    ensures
        command == command_of(span_bytes(text@, span)),
{
    if word_is(text, span, "break") {
        Command::Break
    } else if word_is(text, span, "size") {
        Command::Size
    } else if word_is(text, span, "maxdepth") {
        Command::MaxDepth
    } else if word_is(text, span, "output") {
        Command::Output
    } else if word_is(text, span, "camera") {
        Command::Camera
    } else if word_is(text, span, "sphere") {
        Command::Sphere
    } else if word_is(text, span, "maxverts") {
        Command::MaxVerts
    } else if word_is(text, span, "vertex") {
        Command::Vertex
    } else if word_is(text, span, "tri") {
        Command::Tri
    } else if word_is(text, span, "translate") {
        Command::Translate
    } else if word_is(text, span, "rotate") {
        Command::Rotate
    } else if word_is(text, span, "scale") {
        Command::Scale
    } else if word_is(text, span, "pushTransform") {
        Command::PushTransform
    } else if word_is(text, span, "popTransform") {
        Command::PopTransform
    } else if word_is(text, span, "directional") {
        Command::Directional
    } else if word_is(text, span, "point") {
        Command::Point
    } else if word_is(text, span, "attenuation") {
        Command::Attenuation
    } else if word_is(text, span, "ambient") {
        Command::Ambient
    } else if word_is(text, span, "diffuse") {
        Command::Diffuse
    } else if word_is(text, span, "specular") {
        Command::Specular
    } else if word_is(text, span, "shininess") {
        Command::Shininess
    } else if word_is(text, span, "emission") {
        Command::Emission
    } else {
        Command::Unrecognized
    }
}

/// How many real arguments a command takes.
pub fn arity(command: Command) -> (n: usize)
    ensures
        n == real_arity(command),
{
    match command {
        Command::Camera => 10,
        Command::Sphere => 4,
        Command::Vertex => 3,
        Command::Translate => 3,
        Command::Rotate => 4,
        Command::Scale => 3,
        Command::Directional => 6,
        Command::Point => 6,
        Command::Attenuation => 3,
        Command::Ambient => 3,
        Command::Diffuse => 3,
        Command::Specular => 3,
        Command::Shininess => 1,
        Command::Emission => 3,
        _ => 0,
    }
}

/// The number that argument `index` of a line spells, or why there is none.
pub open spec fn int_arg(s: Seq<u8>, tokens: Seq<Span>, index: int) -> Result<u32, ErrorKind> {
    if index >= tokens.len() {
        Err(ErrorKind::MissingArgument)
    } else {
        match decimal_u32(span_bytes(s, tokens[index])) {
            Some(value) => Ok(value),
            None => Err(ErrorKind::InvalidInteger),
        }
    }
}

/// Reads word `index` of a line as an unsigned 32-bit number.
pub fn parse_u32(text: &[u8], tokens: &Vec<Span>, index: usize) -> (r: Result<u32, ErrorKind>)
    requires
        spans_within(tokens@, text@.len()),
    ensures
        r == int_arg(text@, tokens@, index as int),
{
    if index >= tokens.len() {
        return Err(ErrorKind::MissingArgument);
    }
    match parse_decimal(text, tokens[index]) {
        Some(value) => Ok(value),
        None => Err(ErrorKind::InvalidInteger),
    }
}

/// One step of building the scene.
///
/// `args` holds the spans of the real arguments, as many as the command
/// takes; for `Unrecognized` it holds the span of the unknown word. `ints`
/// holds the three vertex numbers of `Tri`, the count of `MaxVerts`, and for
/// `Camera` the width and height of the picture at that line.
#[derive(Debug)]
pub struct Action {
    pub command: Command,
    pub args: Vec<Span>,
    pub ints: Vec<u32>,
}

/// What an `Action` holds.
pub struct ActionView {
    pub command: Command,
    pub args: Seq<Span>,
    pub ints: Seq<u32>,
}

impl View for Action {
    type V = ActionView;

    open spec fn view(&self) -> ActionView {
        ActionView { command: self.command, args: self.args@, ints: self.ints@ }
    }
}

/// What a scene description says: the picture's size, the depth of the
/// recursion, the name of the picture's file and the steps that build the
/// scene, in the order of their lines.
#[derive(Debug)]
pub struct SceneScript {
    pub image_width: u32,
    pub image_height: u32,
    pub max_raytrace_depth: u32,
    pub image_filename: Vec<u8>,
    pub actions: Vec<Action>,
}

/// What a `SceneScript` holds.
pub struct ScriptView {
    pub image_width: u32,
    pub image_height: u32,
    pub max_raytrace_depth: u32,
    pub image_filename: Seq<u8>,
    pub actions: Seq<ActionView>,
}

/// What each of the actions holds.
pub open spec fn action_views(actions: Seq<Action>) -> Seq<ActionView> {
    Seq::new(actions.len(), |i: int| actions[i]@)
}

impl View for SceneScript {
    type V = ScriptView;

    open spec fn view(&self) -> ScriptView {
        ScriptView {
            image_width: self.image_width,
            image_height: self.image_height,
            max_raytrace_depth: self.max_raytrace_depth,
            image_filename: self.image_filename@,
            actions: action_views(self.actions@),
        }
    }
}

/// Where the reading of a text stands after some of its lines: what they
/// have said, how many vertices they have declared and how many transforms
/// are on the stack.
pub struct ParseState {
    pub script: ScriptView,
    pub vertices: nat,
    pub transforms: nat,
}

/// What one line does.
pub enum Step {
    /// Reading goes on with the next line.
    Next(ParseState),
    /// Reading ends here; the rest of the text is not looked at.
    Stop(ParseState),
    /// The text is refused.
    Fail(ErrorKind),
}

/// The state before the first line: a picture of 640 by 460, five levels of
/// recursion, the file `output.bmp`, no vertex, and the identity alone on the
/// stack of transforms.
pub open spec fn initial_state() -> ParseState {
    ParseState {
        script: ScriptView {
            image_width: 640,
            image_height: 460,
            max_raytrace_depth: 5,
            image_filename: "output.bmp".spec_bytes(),
            actions: Seq::empty(),
        },
        vertices: 0,
        transforms: 1,
    }
}

/// The words in `spans`, with one space between each two.
pub open spec fn joined(s: Seq<u8>, spans: Seq<Span>) -> Seq<u8>
    decreases spans.len(),
{
    if spans.len() == 0 {
        Seq::empty()
    } else if spans.len() == 1 {
        span_bytes(s, spans[0])
    } else {
        joined(s, spans.drop_last()) + seq![32u8] + span_bytes(s, spans.last())
    }
}

/// Argument `index` of a line as the number of a declared vertex.
pub open spec fn vertex_arg(s: Seq<u8>, tokens: Seq<Span>, index: int, vertices: nat) -> Result<
    u32,
    ErrorKind,
> {
    match int_arg(s, tokens, index) {
        Err(kind) => Err(kind),
        Ok(value) => if value < vertices {
            Ok(value)
        } else {
            Err(ErrorKind::VertexOutOfRange)
        },
    }
}

/// `state` with one more action.
pub open spec fn with_action(
    state: ParseState,
    command: Command,
    args: Seq<Span>,
    ints: Seq<u32>,
) -> ParseState {
    ParseState {
        script: ScriptView {
            actions: state.script.actions.push(ActionView { command, args, ints }),
            ..state.script
        },
        ..state
    }
}

/// The spans of the real arguments of `command` on a line of these words.
pub open spec fn real_args(tokens: Seq<Span>, command: Command) -> Seq<Span> {
    tokens.subrange(1, 1 + real_arity(command) as int)
}

/// What the line with the words `tokens`, the first of which names
/// `command`, does in `state`.
pub open spec fn run_command(
    state: ParseState,
    s: Seq<u8>,
    tokens: Seq<Span>,
    command: Command,
) -> Step {
    match command {
        Command::Break => Step::Stop(state),
        Command::Size => match int_arg(s, tokens, 1) {
            Err(kind) => Step::Fail(kind),
            Ok(width) => match int_arg(s, tokens, 2) {
                Err(kind) => Step::Fail(kind),
                Ok(height) => Step::Next(
                    ParseState {
                        script: ScriptView {
                            image_width: width,
                            image_height: height,
                            ..state.script
                        },
                        ..state
                    },
                ),
            },
        },
        Command::MaxDepth => match int_arg(s, tokens, 1) {
            Err(kind) => Step::Fail(kind),
            Ok(depth) => Step::Next(
                ParseState {
                    script: ScriptView { max_raytrace_depth: depth, ..state.script },
                    ..state
                },
            ),
        },
        Command::Output => Step::Next(
            ParseState {
                script: ScriptView { image_filename: joined(s, tokens.skip(1)), ..state.script },
                ..state
            },
        ),
        Command::MaxVerts => match int_arg(s, tokens, 1) {
            Err(kind) => Step::Fail(kind),
            Ok(count) => Step::Next(with_action(state, command, Seq::empty(), seq![count])),
        },
        Command::Tri => match vertex_arg(s, tokens, 1, state.vertices) {
            Err(kind) => Step::Fail(kind),
            Ok(a) => match vertex_arg(s, tokens, 2, state.vertices) {
                Err(kind) => Step::Fail(kind),
                Ok(b) => match vertex_arg(s, tokens, 3, state.vertices) {
                    Err(kind) => Step::Fail(kind),
                    Ok(c) => if state.transforms == 0 {
                        Step::Fail(ErrorKind::EmptyTransformStack)
                    } else {
                        Step::Next(with_action(state, command, Seq::empty(), seq![a, b, c]))
                    },
                },
            },
        },
        Command::Sphere => if state.transforms == 0 {
            Step::Fail(ErrorKind::EmptyTransformStack)
        } else if tokens.len() < 1 + real_arity(command) {
            Step::Fail(ErrorKind::MissingArgument)
        } else {
            Step::Next(with_action(state, command, real_args(tokens, command), Seq::empty()))
        },
        Command::Translate | Command::Rotate | Command::Scale => if tokens.len() < 1
            + real_arity(command) {
            Step::Fail(ErrorKind::MissingArgument)
        } else if state.transforms == 0 {
            Step::Fail(ErrorKind::EmptyTransformStack)
        } else {
            Step::Next(with_action(state, command, real_args(tokens, command), Seq::empty()))
        },
        Command::PushTransform => if state.transforms == 0 {
            Step::Fail(ErrorKind::EmptyTransformStack)
        } else {
            Step::Next(
                with_action(
                    ParseState { transforms: state.transforms + 1, ..state },
                    command,
                    Seq::empty(),
                    Seq::empty(),
                ),
            )
        },
        Command::PopTransform => Step::Next(
            with_action(
                ParseState {
                    transforms: if state.transforms == 0 {
                        0
                    } else {
                        (state.transforms - 1) as nat
                    },
                    ..state
                },
                command,
                Seq::empty(),
                Seq::empty(),
            ),
        ),
        Command::Camera => if tokens.len() < 1 + real_arity(command) {
            Step::Fail(ErrorKind::MissingArgument)
        } else {
            Step::Next(
                with_action(
                    state,
                    command,
                    real_args(tokens, command),
                    seq![state.script.image_width, state.script.image_height],
                ),
            )
        },
        Command::Vertex => if tokens.len() < 1 + real_arity(command) {
            Step::Fail(ErrorKind::MissingArgument)
        } else {
            Step::Next(
                with_action(
                    ParseState { vertices: state.vertices + 1, ..state },
                    command,
                    real_args(tokens, command),
                    Seq::empty(),
                ),
            )
        },
        Command::Unrecognized => Step::Next(
            with_action(state, command, seq![tokens[0]], Seq::empty()),
        ),
        _ => if tokens.len() < 1 + real_arity(command) {
            Step::Fail(ErrorKind::MissingArgument)
        } else {
            Step::Next(with_action(state, command, real_args(tokens, command), Seq::empty()))
        },
    }
}

/// What the line in `from..to` does in `state`: nothing where it is blank or
/// its first word begins with `#`, else what its command does.
pub open spec fn step(state: ParseState, s: Seq<u8>, from: int, to: int) -> Step {
    let tokens = token_spans(s, from, to);
    if tokens.len() == 0 || s[tokens[0].start as int] == 35 {
        Step::Next(state)
    } else {
        run_command(state, s, tokens, command_of(span_bytes(s, tokens[0])))
    }
}

/// The end of the line that `from` stands in: the next line feed, or the end
/// of the text.
pub open spec fn line_end(s: Seq<u8>, from: int) -> int
    decreases s.len() - from,
{
    if from >= s.len() || s[from] == 10 {
        from
    } else {
        line_end(s, from + 1)
    }
}

/// `line_end` stops inside the text, on a line feed unless it reached the
/// end, and passes over none.
pub proof fn lemma_line_end(s: Seq<u8>, from: int)
    requires
        0 <= from <= s.len(),
    ensures
        from <= line_end(s, from) <= s.len(),
        line_end(s, from) < s.len() ==> s[line_end(s, from)] == 10,
        forall|i: int| from <= i < line_end(s, from) ==> #[trigger] s[i] != 10,
    decreases s.len() - from,
{
    if from < s.len() && s[from] != 10 {
        lemma_line_end(s, from + 1);
    }
}

/// Reads the lines from position `pos` on, the first of them being line
/// `line`, until the text ends, a line stops the reading or one is refused.
pub open spec fn run(state: ParseState, s: Seq<u8>, pos: int, line: int) -> Result<
    ParseState,
    ParseError,
>
    decreases s.len() + 1 - pos,
    via run_decreases
{
    if pos < 0 || pos >= s.len() {
        Ok(state)
    } else {
        let end = line_end(s, pos);
        match step(state, s, pos, end) {
            Step::Fail(kind) => Err(ParseError { line: line as usize, kind }),
            Step::Stop(last) => Ok(last),
            Step::Next(next) => run(next, s, end + 1, line + 1),
        }
    }
}

#[via_fn]
proof fn run_decreases(state: ParseState, s: Seq<u8>, pos: int, line: int) {
    if 0 <= pos < s.len() {
        lemma_line_end(s, pos);
    }
}

/// What the text `s` says, or the first line that is refused.
pub open spec fn parsed(s: Seq<u8>) -> Result<ScriptView, ParseError> {
    match run(initial_state(), s, 0, 0) {
        Ok(state) => Ok(state.script),
        Err(error) => Err(error),
    }
}

/// How many vertices the actions declare.
pub open spec fn vertices_declared(actions: Seq<ActionView>) -> nat
    decreases actions.len(),
{
    if actions.len() == 0 {
        0
    } else if actions.last().command == Command::Vertex {
        vertices_declared(actions.drop_last()) + 1
    } else {
        vertices_declared(actions.drop_last())
    }
}

/// How many transforms are on the stack after the actions: one at first, one
/// more with each push and one fewer with each pop that finds one.
pub open spec fn transforms_left(actions: Seq<ActionView>) -> nat
    decreases actions.len(),
{
    if actions.len() == 0 {
        1
    } else {
        let before = transforms_left(actions.drop_last());
        match actions.last().command {
            Command::PushTransform => before + 1,
            Command::PopTransform => if before == 0 {
                0
            } else {
                (before - 1) as nat
            },
            _ => before,
        }
    }
}

/// The commands that read or replace the current transform.
pub open spec fn needs_transform(command: Command) -> bool {
    command == Command::Sphere || command == Command::Tri || command == Command::Translate
        || command == Command::Rotate || command == Command::Scale || command
        == Command::PushTransform
}

/// How many numbers the action of a command carries.
pub open spec fn int_arity(command: Command) -> nat {
    match command {
        Command::Tri => 3,
        Command::Camera => 2,
        Command::MaxVerts => 1,
        _ => 0,
    }
}

/// Action `i` can be carried out after those before it: it is no setting of
/// the picture, it has the arguments that its command takes, each of them a
/// word of a text of `len` bytes, a triangle names declared vertices only,
/// and where the command needs the current transform there is one.
pub open spec fn action_ok(actions: Seq<ActionView>, i: int, len: nat) -> bool {
    let action = actions[i];
    let before = actions.take(i);
    &&& action.command != Command::Break
    &&& action.command != Command::Size
    &&& action.command != Command::MaxDepth
    &&& action.command != Command::Output
    &&& action.args.len() == (if action.command == Command::Unrecognized {
        1
    } else {
        real_arity(action.command)
    })
    &&& forall|k: int|
        0 <= k < action.args.len() ==> (#[trigger] action.args[k]).start < action.args[k].end
            <= len
    &&& action.ints.len() == int_arity(action.command)
    &&& action.command == Command::Tri ==> forall|k: int|
        0 <= k < 3 ==> #[trigger] action.ints[k] < vertices_declared(before)
    &&& needs_transform(action.command) ==> transforms_left(before) > 0
}

/// Every action can be carried out in its turn.
pub open spec fn actions_ok(actions: Seq<ActionView>, len: nat) -> bool {
    forall|i: int| 0 <= i < actions.len() ==> action_ok(actions, i, len)
}

/// The state counts what its actions have done.
pub open spec fn state_ok(state: ParseState, len: nat) -> bool {
    &&& actions_ok(state.script.actions, len)
    &&& state.vertices == vertices_declared(state.script.actions)
    &&& state.transforms == transforms_left(state.script.actions)
}

/// One more action that can be carried out keeps the list so.
proof fn lemma_push_ok(actions: Seq<ActionView>, action: ActionView, len: nat)
    requires
        actions_ok(actions, len),
        action_ok(actions.push(action), actions.len() as int, len),
    ensures
        actions_ok(actions.push(action), len),
        actions.push(action).drop_last() == actions,
{
    let all = actions.push(action);
    assert(all.drop_last() =~= actions);
    assert forall|i: int| 0 <= i < all.len() implies action_ok(all, i, len) by {
        if i < actions.len() {
            assert(action_ok(actions, i, len));
            assert(all.take(i) =~= actions.take(i));
            assert(all[i] == actions[i]);
        }
    }
}

/// The vertices and transforms that `state` counts, after one more action
/// of `command`.
pub open spec fn counted(state: ParseState, command: Command) -> ParseState {
    ParseState {
        vertices: if command == Command::Vertex {
            state.vertices + 1
        } else {
            state.vertices
        },
        transforms: match command {
            Command::PushTransform => state.transforms + 1,
            Command::PopTransform => if state.transforms == 0 {
                0
            } else {
                (state.transforms - 1) as nat
            },
            _ => state.transforms,
        },
        ..state
    }
}

/// An action that can be carried out in `state` leaves a state that counts
/// what its actions have done.
proof fn lemma_action_ok(state: ParseState, action: ActionView, len: nat)
    requires
        state_ok(state, len),
        action.command != Command::Break,
        action.command != Command::Size,
        action.command != Command::MaxDepth,
        action.command != Command::Output,
        action.args.len() == (if action.command == Command::Unrecognized {
            1
        } else {
            real_arity(action.command)
        }),
        forall|k: int|
            0 <= k < action.args.len() ==> (#[trigger] action.args[k]).start < action.args[k].end
                <= len,
        action.ints.len() == int_arity(action.command),
        action.command == Command::Tri ==> forall|k: int|
            0 <= k < 3 ==> #[trigger] action.ints[k] < state.vertices,
        needs_transform(action.command) ==> state.transforms > 0,
    ensures
        state_ok(
            with_action(counted(state, action.command), action.command, action.args, action.ints),
            len,
        ),
{
    let actions = state.script.actions;
    let all = actions.push(action);
    assert(all.take(actions.len() as int) =~= actions);
    assert(all.drop_last() =~= actions);
    assert(action_ok(all, actions.len() as int, len));
    lemma_push_ok(actions, action, len);
}

/// The real arguments of a command are words of the line.
proof fn lemma_real_args(s: Seq<u8>, from: int, to: int, command: Command)
    requires
        0 <= from <= to <= s.len() <= usize::MAX,
        token_spans(s, from, to).len() >= 1 + real_arity(command),
    ensures
        real_args(token_spans(s, from, to), command).len() == real_arity(command),
        forall|k: int|
            0 <= k < real_arity(command) ==> (#[trigger] real_args(
                token_spans(s, from, to),
                command,
            )[k]).start < real_args(token_spans(s, from, to), command)[k].end <= s.len(),
{
    let tokens = token_spans(s, from, to);
    lemma_token_spans(s, from, to);
    assert forall|k: int| 0 <= k < real_arity(command) implies (#[trigger] real_args(
        tokens,
        command,
    )[k]).start < real_args(tokens, command)[k].end <= s.len() by {
        assert(real_args(tokens, command)[k] == tokens[k + 1]);
        assert(is_word(s, from, to, tokens[k + 1]));
    }
}

/// A line leaves a state that counts what its actions have done.
proof fn lemma_step_ok(state: ParseState, s: Seq<u8>, from: int, to: int)
    requires
        state_ok(state, s.len()),
        0 <= from <= to <= s.len() <= usize::MAX,
    ensures
        match step(state, s, from, to) {
            Step::Next(next) => state_ok(next, s.len()),
            Step::Stop(last) => state_ok(last, s.len()),
            Step::Fail(_) => true,
        },
{
    let tokens = token_spans(s, from, to);
    if tokens.len() == 0 || s[tokens[0].start as int] == 35 {
    } else {
        let command = command_of(span_bytes(s, tokens[0]));
        let len = s.len();
        let none = Seq::<Span>::empty();
        let no_ints = Seq::<u32>::empty();
        match command {
            Command::Break | Command::Size | Command::MaxDepth | Command::Output => {},
            Command::MaxVerts => {
                if let Ok(count) = int_arg(s, tokens, 1) {
                    lemma_action_ok(
                        state,
                        ActionView { command, args: none, ints: seq![count] },
                        len,
                    );
                }
            },
            Command::Tri => {
                if let Ok(a) = vertex_arg(s, tokens, 1, state.vertices) {
                    if let Ok(b) = vertex_arg(s, tokens, 2, state.vertices) {
                        if let Ok(c) = vertex_arg(s, tokens, 3, state.vertices) {
                            if state.transforms != 0 {
                                lemma_action_ok(
                                    state,
                                    ActionView { command, args: none, ints: seq![a, b, c] },
                                    len,
                                );
                            }
                        }
                    }
                }
            },
            Command::PushTransform => {
                if state.transforms != 0 {
                    lemma_action_ok(state, ActionView { command, args: none, ints: no_ints }, len);
                }
            },
            Command::PopTransform => {
                lemma_action_ok(state, ActionView { command, args: none, ints: no_ints }, len);
            },
            Command::Unrecognized => {
                lemma_token_spans(s, from, to);
                assert(is_word(s, from, to, tokens[0]));
                lemma_action_ok(
                    state,
                    ActionView { command, args: seq![tokens[0]], ints: no_ints },
                    len,
                );
            },
            Command::Camera => {
                if tokens.len() >= 1 + real_arity(command) {
                    lemma_real_args(s, from, to, command);
                    lemma_action_ok(
                        state,
                        ActionView {
                            command,
                            args: real_args(tokens, command),
                            ints: seq![state.script.image_width, state.script.image_height],
                        },
                        len,
                    );
                }
            },
            _ => {
                if tokens.len() >= 1 + real_arity(command) && (needs_transform(command)
                    ==> state.transforms != 0) {
                    lemma_real_args(s, from, to, command);
                    lemma_action_ok(
                        state,
                        ActionView { command, args: real_args(tokens, command), ints: no_ints },
                        len,
                    );
                }
            },
        }
    }
}

/// Reading on from a state that counts what its actions have done ends in
/// such a state.
proof fn lemma_run_ok(state: ParseState, s: Seq<u8>, pos: int, line: int)
    requires
        state_ok(state, s.len()),
        0 <= pos,
        s.len() <= usize::MAX,
    ensures
        match run(state, s, pos, line) {
            Ok(last) => state_ok(last, s.len()),
            Err(_) => true,
        },
    decreases s.len() + 1 - pos,
{
    if pos < s.len() {
        let end = line_end(s, pos);
        lemma_line_end(s, pos);
        lemma_step_ok(state, s, pos, end);
        match step(state, s, pos, end) {
            Step::Next(next) => {
                lemma_run_ok(next, s, end + 1, line + 1);
            },
            _ => {},
        }
    }
}

/// What a text says can be carried out: every action of an accepted text has
/// its arguments, a triangle names only vertices that lines before it have
/// declared, and no action finds the stack of transforms empty when it needs
/// the current one.
pub proof fn lemma_parsed_ok(s: Seq<u8>)
    requires
        s.len() <= usize::MAX,
    ensures
        match parsed(s) {
            Ok(script) => actions_ok(script.actions, s.len()),
            Err(_) => true,
        },
{
    lemma_run_ok(initial_state(), s, 0, 0);
}

/// What reading one line came to.
enum Flow {
    Next,
    Stop,
    Fail(ErrorKind),
}

/// The reading of a text, between two of its lines.
struct Parser {
    script: SceneScript,
    vertices: usize,
    /// The transforms on the stack above the lowest one, or `None` once that
    /// one was popped too.
    transforms: Option<usize>,
}

/// The words after the command, with one space between each two.
fn join_words(text: &[u8], tokens: &Vec<Span>) -> (name: Vec<u8>)
    requires
        spans_within(tokens@, text@.len()),
        tokens@.len() > 0,
    ensures
        name@ == joined(text@, tokens@.skip(1)),
{
    let mut name: Vec<u8> = Vec::new();
    let mut k: usize = 1;
    let ghost words = tokens@.skip(1);
    while k < tokens.len()
        invariant
            spans_within(tokens@, text@.len()),
            1 <= k <= tokens@.len(),
            words == tokens@.skip(1),
            name@ == joined(text@, words.take(k - 1)),
        decreases tokens@.len() - k,
    {
        let span = tokens[k];
        let ghost before = name@;
        if k > 1 {
            name.push(32);
        }
        let mut i: usize = span.start;
        while i < span.end
            invariant
                span.start <= i <= span.end <= text@.len(),
                name@ == (if k > 1 {
                    before + seq![32u8]
                } else {
                    before
                }) + text@.subrange(span.start as int, i as int),
            decreases span.end - i,
        {
            name.push(text[i]);
            i = i + 1;
            assert(name@ =~= (if k > 1 {
                before + seq![32u8]
            } else {
                before
            }) + text@.subrange(span.start as int, i as int));
        }
        proof {
            let now = words.take(k as int);
            assert(now.drop_last() =~= words.take(k - 1));
            assert(now.last() == span);
            if k == 1 {
                assert(before =~= Seq::<u8>::empty());
                assert(name@ =~= span_bytes(text@, span));
            }
        }
        k = k + 1;
    }
    assert(words.take(k - 1) =~= words);
    name
}

/// The spans of the `count` words after the command.
fn take_args(tokens: &Vec<Span>, count: usize) -> (args: Vec<Span>)
    requires
        count < tokens@.len(),
    ensures
        args@ == tokens@.subrange(1, 1 + count),
{
    let mut args: Vec<Span> = Vec::with_capacity(count);
    let mut k: usize = 0;
    while k < count
        invariant
            k <= count < tokens@.len(),
            args@ == tokens@.subrange(1, 1 + k),
        decreases count - k,
    {
        args.push(tokens[k + 1]);
        k = k + 1;
        assert(args@ =~= tokens@.subrange(1, 1 + k));
    }
    args
}

impl Parser {
    /// The counters never run ahead of the actions.
    spec fn wf(&self) -> bool {
        &&& self.vertices <= self.script.actions@.len()
        &&& match self.transforms {
            Some(above) => above <= self.script.actions@.len(),
            None => true,
        }
    }

    /// The state that this reading stands in.
    spec fn state(&self) -> ParseState {
        ParseState {
            script: self.script@,
            vertices: self.vertices as nat,
            transforms: match self.transforms {
                Some(above) => (above + 1) as nat,
                None => 0,
            },
        }
    }

    fn new() -> (parser: Parser)
        ensures
            parser.wf(),
            parser.state() == initial_state(),
    {
        let parser = Parser {
            script: SceneScript {
                image_width: 640,
                image_height: 460,
                max_raytrace_depth: 5,
                image_filename: "output.bmp".as_bytes_vec(),
                actions: Vec::new(),
            },
            vertices: 0,
            transforms: Some(0),
        };
        assert(parser.script@.actions =~= Seq::<ActionView>::empty());
        parser
    }

    /// Adds an action and leaves the rest as it is.
    fn push_action(&mut self, command: Command, args: Vec<Span>, ints: Vec<u32>)
        requires
            old(self).wf(),
        ensures
            final(self).wf(),
            final(self).state() == with_action(old(self).state(), command, args@, ints@),
            final(self).vertices == old(self).vertices,
            final(self).transforms == old(self).transforms,
            final(self).script.actions@.len() == old(self).script.actions@.len() + 1,
            final(self).script.actions@.len() <= usize::MAX,
    {
        let ghost action = ActionView { command, args: args@, ints: ints@ };
        self.script.actions.push(Action { command, args, ints });
        let count: usize = self.script.actions.len();
        assert(self.script@.actions =~= old(self).script@.actions.push(action));
    }

    /// Reads word `index` of a line as the number of a declared vertex.
    fn vertex(&self, text: &[u8], tokens: &Vec<Span>, index: usize) -> (r: Result<u32, ErrorKind>)
        requires
            spans_within(tokens@, text@.len()),
        ensures
            r == vertex_arg(text@, tokens@, index as int, self.vertices as nat),
    {
        match parse_u32(text, tokens, index) {
            Err(kind) => Err(kind),
            Ok(value) => if (value as u64) < (self.vertices as u64) {
                Ok(value)
            } else {
                Err(ErrorKind::VertexOutOfRange)
            },
        }
    }

    /// A triangle over three declared vertices.
    fn triangle(&mut self, text: &[u8], tokens: &Vec<Span>) -> (flow: Flow)
        requires
            old(self).wf(),
            spans_within(tokens@, text@.len()),
        ensures
            final(self).wf(),
            run_command(old(self).state(), text@, tokens@, Command::Tri) == (match flow {
                Flow::Next => Step::Next(final(self).state()),
                Flow::Stop => Step::Stop(final(self).state()),
                Flow::Fail(kind) => Step::Fail(kind),
            }),
    {
        let a: u32 = match self.vertex(text, tokens, 1) {
            Err(kind) => { return Flow::Fail(kind); },
            Ok(value) => value,
        };
        let b: u32 = match self.vertex(text, tokens, 2) {
            Err(kind) => { return Flow::Fail(kind); },
            Ok(value) => value,
        };
        let c: u32 = match self.vertex(text, tokens, 3) {
            Err(kind) => { return Flow::Fail(kind); },
            Ok(value) => value,
        };
        if self.transforms.is_none() {
            return Flow::Fail(ErrorKind::EmptyTransformStack);
        }
        let mut ints: Vec<u32> = Vec::with_capacity(3);
        ints.push(a);
        ints.push(b);
        ints.push(c);
        assert(ints@ =~= seq![a, b, c]);
        self.push_action(Command::Tri, Vec::new(), ints);
        Flow::Next
    }

    /// A command that takes real arguments and nothing else.
    fn with_reals(&mut self, tokens: &Vec<Span>, command: Command, ints: Vec<u32>) -> (flow: Flow)
        requires
            old(self).wf(),
        ensures
            final(self).wf(),
            final(self).vertices == old(self).vertices,
            final(self).transforms == old(self).transforms,
            tokens@.len() < 1 + real_arity(command) ==> flow == Flow::Fail(
                ErrorKind::MissingArgument,
            ) && *final(self) == *old(self),
            tokens@.len() >= 1 + real_arity(command) ==> flow == Flow::Next && final(self).state()
                == with_action(old(self).state(), command, real_args(tokens@, command), ints@)
                && final(self).script.actions@.len() == old(self).script.actions@.len() + 1
                && final(self).script.actions@.len() <= usize::MAX,
    {
        let count: usize = arity(command);
        if tokens.len() < 1 + count {
            return Flow::Fail(ErrorKind::MissingArgument);
        }
        let args = take_args(tokens, count);
        self.push_action(command, args, ints);
        Flow::Next
    }

    /// Reads the line in `from..to`.
    fn interpret(&mut self, text: &[u8], from: usize, to: usize) -> (flow: Flow)
        requires
            old(self).wf(),
            from <= to <= text@.len(),
        ensures
            final(self).wf(),
            step(old(self).state(), text@, from as int, to as int) == (match flow {
                Flow::Next => Step::Next(final(self).state()),
                Flow::Stop => Step::Stop(final(self).state()),
                Flow::Fail(kind) => Step::Fail(kind),
            }),
    {
        let tokens = tokenize(text, from, to);
        if tokens.len() == 0 {
            return Flow::Next;
        }
        let first: Span = tokens[0];
        proof {
            lemma_token_spans(text@, from as int, to as int);
            assert(is_word(text@, from as int, to as int, tokens@[0]));
        }
        if text[first.start] == 35 {
            return Flow::Next;
        }
        let command = classify(text, first);
        self.execute(text, &tokens, command)
    }

    /// Carries out `command`, which the first of the words `tokens` names.
    fn execute(&mut self, text: &[u8], tokens: &Vec<Span>, command: Command) -> (flow: Flow)
        requires
            old(self).wf(),
            spans_within(tokens@, text@.len()),
            tokens@.len() > 0,
        ensures
            final(self).wf(),
            run_command(old(self).state(), text@, tokens@, command) == (match flow {
                Flow::Next => Step::Next(final(self).state()),
                Flow::Stop => Step::Stop(final(self).state()),
                Flow::Fail(kind) => Step::Fail(kind),
            }),
    {
        match command {
            Command::Break => Flow::Stop,
            Command::Size => match parse_u32(text, tokens, 1) {
                Err(kind) => Flow::Fail(kind),
                Ok(width) => match parse_u32(text, tokens, 2) {
                    Err(kind) => Flow::Fail(kind),
                    Ok(height) => {
                        self.script.image_width = width;
                        self.script.image_height = height;
                        Flow::Next
                    },
                },
            },
            Command::MaxDepth => match parse_u32(text, tokens, 1) {
                Err(kind) => Flow::Fail(kind),
                Ok(depth) => {
                    self.script.max_raytrace_depth = depth;
                    Flow::Next
                },
            },
            Command::Output => {
                self.script.image_filename = join_words(text, tokens);
                Flow::Next
            },
            Command::MaxVerts => match parse_u32(text, tokens, 1) {
                Err(kind) => Flow::Fail(kind),
                Ok(count) => {
                    let mut ints: Vec<u32> = Vec::with_capacity(1);
                    ints.push(count);
                    assert(ints@ =~= seq![count]);
                    self.push_action(command, Vec::new(), ints);
                    Flow::Next
                },
            },
            Command::Tri => self.triangle(text, tokens),
            Command::Sphere => if self.transforms.is_none() {
                Flow::Fail(ErrorKind::EmptyTransformStack)
            } else {
                self.with_reals(tokens, command, Vec::new())
            },
            Command::Translate | Command::Rotate | Command::Scale => if tokens.len() < 1 + arity(
                command,
            ) {
                Flow::Fail(ErrorKind::MissingArgument)
            } else if self.transforms.is_none() {
                Flow::Fail(ErrorKind::EmptyTransformStack)
            } else {
                self.with_reals(tokens, command, Vec::new())
            },
            Command::PushTransform => match self.transforms {
                None => Flow::Fail(ErrorKind::EmptyTransformStack),
                Some(above) => {
                    self.push_action(command, Vec::new(), Vec::new());
                    self.transforms = Some(above + 1);
                    Flow::Next
                },
            },
            Command::PopTransform => {
                self.push_action(command, Vec::new(), Vec::new());
                self.transforms = match self.transforms {
                    None => None,
                    Some(above) => if above == 0 {
                        None
                    } else {
                        Some(above - 1)
                    },
                };
                Flow::Next
            },
            Command::Camera => {
                let mut ints: Vec<u32> = Vec::with_capacity(2);
                ints.push(self.script.image_width);
                ints.push(self.script.image_height);
                assert(ints@ =~= seq![self.script.image_width, self.script.image_height]);
                self.with_reals(tokens, command, ints)
            },
            Command::Vertex => {
                let flow = self.with_reals(tokens, command, Vec::new());
                if tokens.len() >= 4 {
                    self.vertices = self.vertices + 1;
                }
                flow
            },
            Command::Unrecognized => {
                let mut args: Vec<Span> = Vec::with_capacity(1);
                args.push(tokens[0]);
                assert(args@ =~= seq![tokens@[0]]);
                self.push_action(command, args, Vec::new());
                Flow::Next
            },
            _ => self.with_reals(tokens, command, Vec::new()),
        }
    }
}

/// The end of the line that starts at `from`.
fn find_line_end(text: &[u8], from: usize) -> (end: usize)
    requires
        from <= text@.len(),
    ensures
        end == line_end(text@, from as int),
        from <= end <= text@.len(),
{
    let mut end: usize = from;
    while end < text.len() && text[end] != 10
        invariant
            from <= end <= text@.len(),
            line_end(text@, end as int) == line_end(text@, from as int),
        decreases text@.len() - end,
    {
        end = end + 1;
    }
    end
}

/// Reads the lines of a text one after the other.
fn read_lines(text: &[u8]) -> (r: Result<SceneScript, ParseError>)
    ensures
        match r {
            Ok(script) => parsed(text@) == Ok::<ScriptView, ParseError>(script@),
            Err(error) => parsed(text@) == Err::<ScriptView, ParseError>(error),
        },
{
    let mut parser = Parser::new();
    let mut pos: usize = 0;
    let mut line: usize = 0;
    while pos < text.len()
        invariant
            parser.wf(),
            line <= pos <= text@.len(),
            run(initial_state(), text@, 0, 0) == run(parser.state(), text@, pos as int, line as int),
        decreases text@.len() - pos,
    {
        let end = find_line_end(text, pos);
        let ghost before = parser.state();
        match parser.interpret(text, pos, end) {
            Flow::Fail(kind) => {
                return Err(ParseError { line, kind });
            },
            Flow::Stop => {
                return Ok(parser.script);
            },
            Flow::Next => {
                assert(run(before, text@, pos as int, line as int) == run(
                    parser.state(),
                    text@,
                    end + 1,
                    line + 1,
                ));
                if end == text.len() {
                    return Ok(parser.script);
                }
                pos = end + 1;
                line = line + 1;
            },
        }
    }
    Ok(parser.script)
}

/// Reads a scene description.
///
/// The text is read line by line. A blank line and a line whose first word
/// begins with `#` say nothing, `break` ends the reading, and every other
/// line is a command with its arguments; words that follow the arguments are
/// not looked at. The first line that lacks an argument, spells a number
/// wrongly, names an undeclared vertex or needs a transform when none is
/// left is reported, and nothing after it is read.
pub fn parse_scene(text: &[u8]) -> (r: Result<SceneScript, ParseError>)
    ensures
        match r {
            Ok(script) => parsed(text@) == Ok::<ScriptView, ParseError>(script@) && actions_ok(
                script@.actions,
                text@.len(),
            ),
            Err(error) => parsed(text@) == Err::<ScriptView, ParseError>(error),
        },
{
    let len: usize = text.len();
    proof {
        lemma_parsed_ok(text@);
    }
    read_lines(text)
}

} // verus!
