use raytracer::scene_parser::{
    arity, classify, parse_scene, parse_u32, Action, Command, ErrorKind, ParseError, SceneScript,
};
use raytracer::tokens::{tokenize, Span};

fn script(text: &str) -> SceneScript {
    parse_scene(text.as_bytes()).unwrap()
}

fn error(text: &str) -> ParseError {
    parse_scene(text.as_bytes()).unwrap_err()
}

fn arg<'a>(text: &'a str, span: Span) -> &'a str {
    &text[span.start..span.end]
}

fn args(text: &str, action: &Action) -> Vec<String> {
    action.args.iter().map(|s| String::from(arg(text, *s))).collect()
}

fn command_named(word: &str) -> Command {
    classify(word.as_bytes(), Span { start: 0, end: word.len() })
}

#[test]
fn an_empty_text_gives_the_defaults() {
    let s = script("");
    assert_eq!(s.image_width, 640);
    assert_eq!(s.image_height, 460);
    assert_eq!(s.max_raytrace_depth, 5);
    assert_eq!(s.image_filename, b"output.bmp".to_vec());
    assert!(s.actions.is_empty());
}

#[test]
fn comments_and_blank_lines_say_nothing() {
    let s = script("# a comment\n\n   \n  # size 1 2\n#size 3 4\n\t\r\n");
    assert_eq!(s.image_width, 640);
    assert_eq!(s.image_height, 460);
    assert!(s.actions.is_empty());
}

#[test]
fn settings_are_read() {
    let s = script("size 320 200\nmaxdepth 3\noutput  my   picture.bmp \n");
    assert_eq!(s.image_width, 320);
    assert_eq!(s.image_height, 200);
    assert_eq!(s.max_raytrace_depth, 3);
    assert_eq!(s.image_filename, b"my picture.bmp".to_vec());
    assert!(s.actions.is_empty());
}

#[test]
fn output_without_a_name_gives_an_empty_name() {
    assert_eq!(script("output").image_filename, Vec::<u8>::new());
    assert_eq!(script("output one").image_filename, b"one".to_vec());
}

#[test]
fn the_last_setting_wins() {
    let s = script("size 1 2\nsize 3 4\nmaxdepth 0\nmaxdepth 9");
    assert_eq!((s.image_width, s.image_height, s.max_raytrace_depth), (3, 4, 9));
}

#[test]
fn break_ends_the_reading() {
    let s = script("size 10 20\nbreak\nsize 30 40\nsize oops\n");
    assert_eq!((s.image_width, s.image_height), (10, 20));
    let s = script("  break now\ntri 9 9 9\n");
    assert!(s.actions.is_empty());
}

#[test]
fn commands_with_real_arguments_name_their_spans() {
    let text = "sphere 0 1.5 -2e3 .25 ignored\n";
    let s = script(text);
    assert_eq!(s.actions.len(), 1);
    assert_eq!(s.actions[0].command, Command::Sphere);
    assert_eq!(args(text, &s.actions[0]), vec!["0", "1.5", "-2e3", ".25"]);
    assert!(s.actions[0].ints.is_empty());
    assert_eq!(s.actions[0].args[1], Span { start: 9, end: 12 });
}

#[test]
fn spans_are_positions_in_the_whole_text() {
    let text = "# first\nambient 0.1 0.2 0.3\r\n  shininess   20\n";
    let s = script(text);
    assert_eq!(s.actions.len(), 2);
    assert_eq!(s.actions[0].command, Command::Ambient);
    assert_eq!(args(text, &s.actions[0]), vec!["0.1", "0.2", "0.3"]);
    assert_eq!(s.actions[1].command, Command::Shininess);
    assert_eq!(args(text, &s.actions[1]), vec!["20"]);
}

#[test]
fn camera_carries_the_size_of_its_line() {
    let text = "size 100 50\ncamera 0 0 4 0 0 0 0 1 0 30\nsize 7 8\n";
    let s = script(text);
    assert_eq!((s.image_width, s.image_height), (7, 8));
    assert_eq!(s.actions.len(), 1);
    assert_eq!(s.actions[0].command, Command::Camera);
    assert_eq!(s.actions[0].ints, vec![100, 50]);
    assert_eq!(
        args(text, &s.actions[0]),
        vec!["0", "0", "4", "0", "0", "0", "0", "1", "0", "30"]
    );
}

#[test]
fn triangles_name_declared_vertices() {
    let text = "maxverts 3\nvertex 0 0 0\nvertex 1 0 0\nvertex 0 1 0\ntri 0 1 2\ntri 2 +1 00\n";
    let s = script(text);
    assert_eq!(s.actions.len(), 6);
    assert_eq!(s.actions[0].command, Command::MaxVerts);
    assert_eq!(s.actions[0].ints, vec![3]);
    assert_eq!(s.actions[1].command, Command::Vertex);
    assert_eq!(args(text, &s.actions[2]), vec!["1", "0", "0"]);
    assert_eq!(s.actions[4].command, Command::Tri);
    assert_eq!(s.actions[4].ints, vec![0, 1, 2]);
    assert!(s.actions[4].args.is_empty());
    assert_eq!(s.actions[5].ints, vec![2, 1, 0]);
}

#[test]
fn a_triangle_over_an_undeclared_vertex_is_refused() {
    assert_eq!(
        error("tri 0 0 0\n"),
        ParseError { line: 0, kind: ErrorKind::VertexOutOfRange }
    );
    assert_eq!(
        error("vertex 0 0 0\nvertex 1 1 1\n\ntri 0 1 2\n"),
        ParseError { line: 3, kind: ErrorKind::VertexOutOfRange }
    );
    assert_eq!(
        error("vertex 0 0 0\ntri 0 0 4294967295"),
        ParseError { line: 1, kind: ErrorKind::VertexOutOfRange }
    );
}

#[test]
fn the_first_wrong_argument_of_a_triangle_is_reported() {
    assert_eq!(error("vertex 0 0 0\ntri 5 x").kind, ErrorKind::VertexOutOfRange);
    assert_eq!(error("vertex 0 0 0\ntri x 5 0").kind, ErrorKind::InvalidInteger);
    assert_eq!(error("vertex 0 0 0\ntri 0 0").kind, ErrorKind::MissingArgument);
    assert_eq!(error("vertex 0 0 0\ntri 0").kind, ErrorKind::MissingArgument);
    assert_eq!(error("vertex 0 0 0\ntri").kind, ErrorKind::MissingArgument);
}

#[test]
fn missing_arguments_are_refused() {
    for text in [
        "size",
        "size 1",
        "maxdepth",
        "maxverts",
        "camera 0 0 4 0 0 0 0 1 0",
        "sphere 0 0 0",
        "vertex 0 0",
        "translate 1 2",
        "rotate 0 0 1",
        "scale 1 1",
        "directional 0 0 1 1 1",
        "point 0 0 1 1 1",
        "attenuation 1 0",
        "ambient 1 1",
        "diffuse 1 1",
        "specular 1 1",
        "shininess",
        "emission 1 1",
    ] {
        assert_eq!(error(text), ParseError { line: 0, kind: ErrorKind::MissingArgument });
    }
}

#[test]
fn invalid_integers_are_refused() {
    for text in ["size a 1", "size 1 b", "size -1 1", "size 1 1.5", "maxdepth 4294967296", "maxverts x"] {
        assert_eq!(error(text), ParseError { line: 0, kind: ErrorKind::InvalidInteger });
    }
    assert_eq!(
        error("size 1 1\n# c\nmaxdepth five\n"),
        ParseError { line: 2, kind: ErrorKind::InvalidInteger }
    );
}

#[test]
fn the_transform_stack_is_followed() {
    let text = "pushTransform\ntranslate 1 2 3\npopTransform\npopTransform\npopTransform\n";
    let s = script(text);
    let commands: Vec<Command> = s.actions.iter().map(|a| a.command).collect();
    assert_eq!(
        commands,
        vec![
            Command::PushTransform,
            Command::Translate,
            Command::PopTransform,
            Command::PopTransform,
            Command::PopTransform
        ]
    );
}

#[test]
fn commands_on_an_empty_transform_stack_are_refused() {
    for command in
        ["sphere 0 0 0 1", "translate 1 2 3", "rotate 0 0 1 90", "scale 1 1 1", "pushTransform"]
    {
        let text = format!("popTransform\n{}\n", command);
        assert_eq!(error(&text), ParseError { line: 1, kind: ErrorKind::EmptyTransformStack });
    }
    assert_eq!(
        error("vertex 0 0 0\npopTransform\ntri 0 0 0"),
        ParseError { line: 2, kind: ErrorKind::EmptyTransformStack }
    );
    assert_eq!(
        error("pushTransform\npopTransform\npopTransform\npushTransform"),
        ParseError { line: 3, kind: ErrorKind::EmptyTransformStack }
    );
}

#[test]
fn which_error_comes_first_on_an_empty_stack() {
    assert_eq!(error("popTransform\nsphere 0 0 0").kind, ErrorKind::EmptyTransformStack);
    assert_eq!(error("popTransform\ntranslate 1 2").kind, ErrorKind::MissingArgument);
    assert_eq!(error("popTransform\ntri 0 0 0").kind, ErrorKind::VertexOutOfRange);
}

#[test]
fn lights_and_materials_need_no_transform() {
    let text = "popTransform\npoint 0 0 0 1 1 1\ndirectional 0 0 1 1 1 1\nattenuation 1 0 0\n\
                diffuse 1 0 0\nspecular 0 1 0\nemission 0 0 1\nambient 0 0 0\nshininess 1\n\
                vertex 0 0 0\ncamera 0 0 1 0 0 0 0 1 0 45\n";
    let s = script(text);
    assert_eq!(s.actions.len(), 11);
    assert_eq!(s.actions[1].command, Command::Point);
    assert_eq!(args(text, &s.actions[2]), vec!["0", "0", "1", "1", "1", "1"]);
}

#[test]
fn unknown_commands_are_kept_by_name() {
    let text = "  teapot 1 2 3\n";
    let s = script(text);
    assert_eq!(s.actions.len(), 1);
    assert_eq!(s.actions[0].command, Command::Unrecognized);
    assert_eq!(args(text, &s.actions[0]), vec!["teapot"]);
    assert!(s.actions[0].ints.is_empty());
}

#[test]
fn commands_are_told_by_their_exact_name() {
    let names = [
        ("break", Command::Break),
        ("size", Command::Size),
        ("maxdepth", Command::MaxDepth),
        ("output", Command::Output),
        ("camera", Command::Camera),
        ("sphere", Command::Sphere),
        ("maxverts", Command::MaxVerts),
        ("vertex", Command::Vertex),
        ("tri", Command::Tri),
        ("translate", Command::Translate),
        ("rotate", Command::Rotate),
        ("scale", Command::Scale),
        ("pushTransform", Command::PushTransform),
        ("popTransform", Command::PopTransform),
        ("directional", Command::Directional),
        ("point", Command::Point),
        ("attenuation", Command::Attenuation),
        ("ambient", Command::Ambient),
        ("diffuse", Command::Diffuse),
        ("specular", Command::Specular),
        ("shininess", Command::Shininess),
        ("emission", Command::Emission),
    ];
    for (name, command) in names {
        assert_eq!(command_named(name), command);
        assert_eq!(command_named(&name.to_uppercase()), Command::Unrecognized);
        assert_eq!(command_named(&format!("{}s", name)), Command::Unrecognized);
        assert_eq!(command_named(&name[1..]), Command::Unrecognized);
    }
    assert_eq!(command_named(""), Command::Unrecognized);
    assert_eq!(command_named("pushtransform"), Command::Unrecognized);
}

#[test]
fn each_command_takes_its_number_of_reals() {
    assert_eq!(arity(Command::Camera), 10);
    assert_eq!(arity(Command::Sphere), 4);
    assert_eq!(arity(Command::Vertex), 3);
    assert_eq!(arity(Command::Translate), 3);
    assert_eq!(arity(Command::Rotate), 4);
    assert_eq!(arity(Command::Scale), 3);
    assert_eq!(arity(Command::Directional), 6);
    assert_eq!(arity(Command::Point), 6);
    assert_eq!(arity(Command::Attenuation), 3);
    assert_eq!(arity(Command::Ambient), 3);
    assert_eq!(arity(Command::Diffuse), 3);
    assert_eq!(arity(Command::Specular), 3);
    assert_eq!(arity(Command::Shininess), 1);
    assert_eq!(arity(Command::Emission), 3);
    for command in [
        Command::Break,
        Command::Size,
        Command::MaxDepth,
        Command::Output,
        Command::MaxVerts,
        Command::Tri,
        Command::PushTransform,
        Command::PopTransform,
        Command::Unrecognized,
    ] {
        assert_eq!(arity(command), 0);
    }
}

#[test]
fn parse_u32_reads_one_word_of_a_line() {
    let text = b"size 640 x";
    let tokens = tokenize(text, 0, text.len());
    assert_eq!(parse_u32(text, &tokens, 1), Ok(640));
    assert_eq!(parse_u32(text, &tokens, 0), Err(ErrorKind::InvalidInteger));
    assert_eq!(parse_u32(text, &tokens, 2), Err(ErrorKind::InvalidInteger));
    assert_eq!(parse_u32(text, &tokens, 3), Err(ErrorKind::MissingArgument));
    assert_eq!(parse_u32(text, &tokens, usize::MAX), Err(ErrorKind::MissingArgument));
}

#[test]
fn a_last_line_without_line_feed_is_read() {
    assert_eq!(script("maxdepth 2").max_raytrace_depth, 2);
    assert_eq!(script("maxdepth 2\n").max_raytrace_depth, 2);
    assert_eq!(script("\nmaxdepth 2\r\n\n").max_raytrace_depth, 2);
    assert_eq!(error("\n\nsize 1"), ParseError { line: 2, kind: ErrorKind::MissingArgument });
}

#[test]
fn a_whole_scene_is_read_in_order() {
    let text = "\
# Test scene
size 64 48
maxdepth 2
output scene.bmp
camera 0 0 5 0 0 0 0 1 0 45
ambient .1 .1 .1
point 4 4 4 1 1 1
diffuse 1 0 0
pushTransform
translate 0 0 -1
sphere 0 0 0 1
popTransform
maxverts 4
vertex -1 -1 0
vertex 1 -1 0
vertex 1 1 0
tri 0 1 2
bogus
";
    let s = script(text);
    assert_eq!((s.image_width, s.image_height, s.max_raytrace_depth), (64, 48, 2));
    assert_eq!(s.image_filename, b"scene.bmp".to_vec());
    let commands: Vec<Command> = s.actions.iter().map(|a| a.command).collect();
    assert_eq!(
        commands,
        vec![
            Command::Camera,
            Command::Ambient,
            Command::Point,
            Command::Diffuse,
            Command::PushTransform,
            Command::Translate,
            Command::Sphere,
            Command::PopTransform,
            Command::MaxVerts,
            Command::Vertex,
            Command::Vertex,
            Command::Vertex,
            Command::Tri,
            Command::Unrecognized
        ]
    );
    assert_eq!(s.actions[0].ints, vec![64, 48]);
    assert_eq!(args(text, &s.actions[5]), vec!["0", "0", "-1"]);
    assert_eq!(s.actions[12].ints, vec![0, 1, 2]);
    for action in &s.actions {
        let expected = if action.command == Command::Unrecognized { 1 } else { arity(action.command) };
        assert_eq!(action.args.len(), expected);
    }
}
