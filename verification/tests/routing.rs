use shaken::command::{Command, Registry, RegistryError};
use shaken::message::{Request, Response, Target};
use shaken::module::{CommandMap, Error};
use shaken::text::{matches_token, after_token};

struct Counter {
    foo: u32,
    foobar: u32,
    other: u32,
}

type Handler = fn(&mut Counter, &Request) -> Option<Response>;

fn on_foo(c: &mut Counter, req: &Request) -> Option<Response> {
    c.foo += 1;
    Some(Response::reply(&format!("foo:{}", req.args())))
}

fn on_foobar(c: &mut Counter, req: &Request) -> Option<Response> {
    c.foobar += 1;
    Some(Response::reply(&format!("foobar:{}", req.args())))
}

fn on_other(c: &mut Counter, _req: &Request) -> Option<Response> {
    c.other += 1;
    None
}

fn counter() -> Counter {
    Counter { foo: 0, foobar: 0, other: 0 }
}

fn request(text: &str) -> Request {
    Request { sender: 1000, text: text.to_string() }
}

fn run(map: &CommandMap<Handler>, c: &mut Counter, text: &str) -> Option<Response> {
    let (f, req) = map.dispatch(&request(text))?;
    f(c, &req)
}

#[test]
fn same_name_from_two_namespaces_is_refused() {
    let mut registry = Registry::new();
    assert_eq!(registry.register(&Command::new("help", "first")), Ok(()));
    assert_eq!(
        registry.register(&Command::new("help", "second")),
        Err(RegistryError::AlreadyExists)
    );
    assert_eq!(registry.len(), 1);
    assert!(registry.contains("help"));
    assert_eq!(registry.owner("help"), Some("first".to_string()));
    assert_eq!(registry.owner("nope"), None);
    assert!(!registry.contains("hel"));
}

#[test]
fn second_map_with_a_taken_name_is_refused() {
    let mut registry = Registry::new();
    let first: Result<CommandMap<Handler>, Error> =
        CommandMap::create(&mut registry, "one", &[("help", on_foo as Handler)]);
    assert!(first.is_ok());
    let second: Result<CommandMap<Handler>, Error> =
        CommandMap::create(&mut registry, "two", &[("help", on_foo as Handler)]);
    assert_eq!(second.err(), Some(Error::CommandAlreadyExists));
    assert_eq!(registry.owner("help"), Some("one".to_string()));
}

#[test]
fn names_before_a_collision_stay_registered() {
    let mut registry = Registry::new();
    assert_eq!(registry.register(&Command::new("taken", "old")), Ok(()));
    let made: Result<CommandMap<Handler>, Error> = CommandMap::create(
        &mut registry,
        "new",
        &[
            ("alpha", on_foo as Handler),
            ("taken", on_foobar as Handler),
            ("omega", on_other as Handler),
        ],
    );
    assert_eq!(made.err(), Some(Error::CommandAlreadyExists));
    assert_eq!(registry.owner("alpha"), Some("new".to_string()));
    assert_eq!(registry.owner("taken"), Some("old".to_string()));
    assert!(!registry.contains("omega"));
    assert_eq!(registry.len(), 2);
}

#[test]
fn a_name_twice_in_one_batch_is_refused() {
    let mut registry = Registry::new();
    let made: Result<CommandMap<Handler>, Error> = CommandMap::create(
        &mut registry,
        "ns",
        &[("dup", on_foo as Handler), ("dup", on_foobar as Handler)],
    );
    assert_eq!(made.err(), Some(Error::CommandAlreadyExists));
    assert!(registry.contains("dup"));
}

#[test]
fn an_empty_batch_makes_an_empty_map() {
    let mut registry = Registry::new();
    let map: CommandMap<Handler> = CommandMap::create(&mut registry, "ns", &[]).unwrap();
    assert_eq!(map.len(), 0);
    assert_eq!(registry.len(), 0);
    assert!(map.dispatch(&request("anything")).is_none());
}

fn foo_and_foobar(registry: &mut Registry) -> CommandMap<Handler> {
    CommandMap::create(
        registry,
        "test",
        &[
            ("foo", on_foo as Handler),
            ("foobar", on_foobar as Handler),
            ("foo bar", on_other as Handler),
        ],
    )
    .unwrap()
}

#[test]
fn the_longer_name_answers() {
    let mut registry = Registry::new();
    let map = foo_and_foobar(&mut registry);
    assert_eq!(map.len(), 3);
    let mut c = counter();
    let resp = run(&map, &mut c, "foobar args");
    assert_eq!(
        resp,
        Some(Response { target: Target::Origin, lines: vec!["foobar:args".to_string()] })
    );
    assert_eq!((c.foo, c.foobar, c.other), (0, 1, 0));
}

#[test]
fn the_shorter_name_answers_its_own_text() {
    let mut registry = Registry::new();
    let map = foo_and_foobar(&mut registry);
    let mut c = counter();
    let resp = run(&map, &mut c, "foo   some  args ");
    assert_eq!(resp, Some(Response::reply("foo:some  args ")));
    assert_eq!((c.foo, c.foobar, c.other), (1, 0, 0));
    let resp = run(&map, &mut c, "foo");
    assert_eq!(resp, Some(Response::reply("foo:")));
    assert_eq!((c.foo, c.foobar, c.other), (2, 0, 0));
}

#[test]
fn of_two_matching_names_the_longest_answers() {
    let mut registry = Registry::new();
    let map = foo_and_foobar(&mut registry);
    let mut c = counter();
    // both "foo" and "foo bar" head this text as whole tokens
    let (_, req) = map.dispatch(&request("foo bar baz")).unwrap();
    assert_eq!(req, Request { sender: 1000, text: "baz".to_string() });
    let resp = run(&map, &mut c, "foo bar baz");
    assert_eq!(resp, None);
    assert_eq!((c.foo, c.foobar, c.other), (0, 0, 1));
}

#[test]
fn no_match_gives_no_response_and_runs_no_handler() {
    let mut registry = Registry::new();
    let map = foo_and_foobar(&mut registry);
    let mut c = counter();
    assert_eq!(run(&map, &mut c, "bar"), None);
    assert_eq!(run(&map, &mut c, "fo"), None);
    assert_eq!(run(&map, &mut c, "foob"), None);
    assert_eq!(run(&map, &mut c, "foobarbaz"), None);
    assert_eq!(run(&map, &mut c, " foo"), None);
    assert_eq!(run(&map, &mut c, ""), None);
    assert!(map.dispatch(&request("quux 1 2")).is_none());
    assert_eq!((c.foo, c.foobar, c.other), (0, 0, 0));
}

#[test]
fn a_name_matches_as_a_whole_token() {
    assert!(matches_token("foo", "foo"));
    assert!(matches_token("foo", "foo bar"));
    assert!(matches_token("foo", "foo\tbar"));
    assert!(!matches_token("foo", "foobar"));
    assert!(!matches_token("foo", "fo"));
    assert!(!matches_token("foo", "bar foo"));
    assert!(matches_token("", ""));
    assert!(matches_token("", " x"));
    assert!(!matches_token("", "x"));
}

#[test]
fn the_arguments_follow_the_name() {
    assert_eq!(after_token("foo bar", 3), "bar");
    assert_eq!(after_token("foo \t bar baz ", 3), "bar baz ");
    assert_eq!(after_token("foo", 3), "");
    assert_eq!(after_token("foo   ", 3), "");
    assert_eq!(after_token("héllo wörld", 5), "wörld");
}

#[test]
fn a_request_starts_with_a_bang() {
    assert_eq!(
        Request::try_parse(7, "!foo bar"),
        Some(Request { sender: 7, text: "foo bar".to_string() })
    );
    assert_eq!(Request::try_parse(7, "!"), None);
    assert_eq!(Request::try_parse(7, ""), None);
    assert_eq!(Request::try_parse(7, "foo"), None);
    assert_eq!(Request::try_parse(7, " !foo"), None);
    let req = Request::try_parse(-3, "!x").unwrap();
    assert_eq!(req.sender(), -3);
    assert_eq!(req.args(), "x");
}

#[test]
fn search_takes_the_name_off() {
    let req = request("foo bar baz");
    assert_eq!(req.search("foo"), Some(Request { sender: 1000, text: "bar baz".to_string() }));
    assert_eq!(req.search("foo bar"), Some(Request { sender: 1000, text: "baz".to_string() }));
    assert_eq!(req.search("foo bar baz"), Some(Request { sender: 1000, text: String::new() }));
    assert_eq!(req.search("fo"), None);
    assert_eq!(req.search("bar"), None);
}

#[test]
fn a_command_keeps_its_name_and_namespace() {
    let cmd = Command::new("help", "builtin");
    assert_eq!(cmd.name(), "help");
    assert_eq!(cmd.namespace(), "builtin");
}
