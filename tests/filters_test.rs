use mom_task::filters::{escape, escape_html, escape_windows, exclude, join_commands, shell_escape};
use mom_task::paths::{
    file_name, get_path_relative_to_base, get_working_directory, mom_just_prefix, MomFilePaths,
};
use mom_task::render::{get_help, split_command, vars_file_format, VarsFormat};
use mom_task::tasks::Task;
use mom_task::value::JsonValue;

fn num(n: &str) -> JsonValue {
    JsonValue::Number(n.to_string())
}

fn text(s: &str) -> JsonValue {
    JsonValue::Str(s.to_string())
}

fn to_json(v: &JsonValue) -> serde_json::Value {
    match v {
        JsonValue::Null => serde_json::Value::Null,
        JsonValue::Bool(b) => serde_json::Value::Bool(*b),
        JsonValue::Number(n) => serde_json::from_str(n).unwrap(),
        JsonValue::Str(s) => serde_json::Value::String(s.clone()),
        JsonValue::Array(a) => serde_json::Value::Array(a.iter().map(to_json).collect()),
        JsonValue::Object(o) => {
            let mut m = serde_json::Map::new();
            for (k, v) in o {
                m.insert(k.clone(), to_json(v));
            }
            serde_json::Value::Object(m)
        }
    }
}

fn render(v: &JsonValue) -> String {
    let mut ctx = tera::Context::new();
    ctx.insert("v", &to_json(v));
    tera::Tera::one_off("{{ v }}", &ctx, false).unwrap()
}

fn val(v: JsonValue) -> Vec<(String, JsonValue)> {
    vec![("val".to_string(), v)]
}

fn rendered(r: Result<JsonValue, String>) -> String {
    match r {
        Ok(JsonValue::Str(s)) => s,
        _ => panic!("expected text"),
    }
}

#[test]
fn test_exclude_filter() {
    let list = JsonValue::Array(vec![num("1"), num("2"), num("3"), num("4"), num("5")]);
    let result = exclude(&list, &val(num("3"))).unwrap();
    assert_eq!(render(&result), "[1, 2, 4, 5]");

    let map = JsonValue::Object(vec![
        ("a".to_string(), num("1")),
        ("b".to_string(), num("2")),
        ("c".to_string(), num("3")),
    ]);
    let result = exclude(&map, &val(text("b"))).unwrap();
    assert_eq!(serde_json::to_string(&to_json(&result)).unwrap(), "{\"a\":1,\"c\":3}");

    // Test with bad input
    assert!(exclude(&num("1"), &val(text("b"))).is_err());

    // Test with missing parameter
    assert!(exclude(&map, &vec![]).is_err());
}

#[test]
fn tera_test_test_shell_escape_filter() {
    assert_eq!(rendered(shell_escape(&text("test"))), "test");
    assert_eq!(rendered(shell_escape(&text("test test"))), "'test test'");
    assert_eq!(rendered(shell_escape(&text("test'test"))), "'test'\\''test'");
    assert_eq!(rendered(shell_escape(&text("test\"test"))), "'test\"test'");
    let list = JsonValue::Array(vec![text("test"), text("test test"), text("test'test"), text("test\"test")]);
    assert_eq!(rendered(shell_escape(&list)), "test 'test test' 'test'\\''test' 'test\"test'");
    assert!(shell_escape(&num("1")).is_err());
}

#[test]
fn test_escape_filter() {
    assert_eq!(rendered(escape(&text("test"))), "test");
    assert_eq!(rendered(escape(&text("test test"))), "'test test'");
    let list = JsonValue::Array(vec![text("test"), text("test test")]);
    assert_eq!(rendered(escape(&list)), "test 'test test'");
}

#[test]
fn windows_and_html_escape() {
    assert_eq!(rendered(escape_windows(&text("test test"))), "\"test test\"");
    assert_eq!(rendered(escape_windows(&text("test"))), "test");
    assert_eq!(rendered(escape_html(&text("<a href='x'>"))), "&lt;a href=&#x27;x&#x27;&gt;");
    assert!(escape_html(&JsonValue::Array(vec![])).is_err());
    assert!(escape(&JsonValue::Array(vec![num("1")])).is_err());
}

#[test]
fn test_join_commands() {
    let commands: Vec<String> = vec!["echo", "Hello World"].iter().map(|s| s.to_string()).collect();
    let command = join_commands(&commands);
    assert_eq!(command, "echo 'Hello World'");

    let commands: Vec<String> = vec!["echo", "Hello World", "Hello World"]
        .iter()
        .map(|s| s.to_string())
        .collect();
    let command = join_commands(&commands);
    assert_eq!(command, "echo 'Hello World' 'Hello World'");

    let commands: Vec<String> = vec!["echo", "Hello World", "Hello \"World"]
        .iter()
        .map(|s| s.to_string())
        .collect();
    let command = join_commands(&commands);
    assert_eq!(command, "echo 'Hello World' 'Hello \"World'");

    let commands: Vec<String> = vec!["echo", "Hello", "World", "--param", "--param=something"]
        .iter()
        .map(|s| s.to_string())
        .collect();
    let command = join_commands(&commands);
    assert_eq!(command, "echo Hello World --param --param=something");
}

#[test]
fn test_get_path_relative_to_base() {
    assert_eq!(get_path_relative_to_base("/home/user", "test"), "/home/user/test");
    assert_eq!(get_path_relative_to_base("/home/user", "/test"), "/test");
    assert_eq!(get_path_relative_to_base("/home/user", "."), "/home/user");
    assert_eq!(get_path_relative_to_base("/home/user", "./hello"), "/home/user/hello");
}

#[test]
fn test_working_directory() {
    assert_eq!(get_working_directory("/home/user", "test").as_deref(), Some("/home/user/test"));
    assert_eq!(get_working_directory("/home/user", ""), None);
    assert_eq!(get_working_directory("/home/user", ".").as_deref(), Some("/home/user"));
}

#[test]
fn root_file_detection() {
    let paths = MomFilePaths::new("/home/user");
    assert!(paths.is_root_mom_file("/home/user/mom.root.yml"));
    assert!(!paths.is_root_mom_file("/home/user/mom.yml"));
    assert!(!paths.is_root_mom_file("/home/mom.root.d/mom.yml"));
    assert_eq!(file_name("/a/b/c.yml"), "c.yml");
    assert_eq!(file_name("c.yml"), "c.yml");
}

#[test]
fn test_split_command() {
    let args = split_command("echo \"Hello World\"").unwrap();
    assert_eq!(args, vec!["echo", "Hello World"]);

    let args = split_command("echo \"Hello World\" \"Hello World\"").unwrap();
    assert_eq!(args, vec!["echo", "Hello World", "Hello World"]);

    let args = split_command("echo Hello\\ World \"Hello \\\"World\"").unwrap();
    assert_eq!(args, vec!["echo", "Hello World", "Hello \"World"]);

    let args = split_command("echo Hello \"World\" \"--param\" \"--param=something\"\n").unwrap();
    assert_eq!(args, vec!["echo", "Hello", "World", "--param", "--param=something"]);

    assert!(split_command("echo \"hello world").is_err());
}

#[test]
fn test_mom_prefix() {
    assert_eq!(
        mom_just_prefix("This is a test\nThis is another test"),
        "[mom] This is a test\n[mom] This is another test"
    );
    assert_eq!(mom_just_prefix("This is a test\n"), "[mom] This is a test\n");
    assert_eq!(mom_just_prefix("\n\n"), "[mom] \n[mom] \n");
    assert_eq!(mom_just_prefix(""), "");
}

#[test]
fn discovery_walk_steps() {
    let mut walk = MomFilePaths::new("/a/b");
    assert_eq!(walk.candidate(), "/a/b/mom.private.yml");
    assert_eq!(walk.step(false, Some("/a".to_string())), None);
    assert_eq!(walk.candidate(), "/a/b/mom.private.yaml");
    assert_eq!(walk.step(true, Some("/a".to_string())).as_deref(), Some("/a/b/mom.private.yaml"));
    assert!(!walk.ended);
    walk.step(false, Some("/a".to_string()));
    walk.step(false, Some("/a".to_string()));
    walk.step(false, Some("/a".to_string()));
    walk.step(false, Some("/a".to_string()));
    assert_eq!(walk.index, 0);
    assert_eq!(walk.current_dir, "/a");
    walk.step(false, Some("/".to_string()));
    walk.step(false, Some("/".to_string()));
    walk.step(false, Some("/".to_string()));
    walk.step(false, Some("/".to_string()));
    assert_eq!(walk.step(true, Some("/".to_string())).as_deref(), Some("/a/mom.root.yml"));
    assert!(walk.ended);
}

#[test]
fn help_is_trimmed() {
    let mut t = Task::new();
    assert_eq!(get_help(&t), "");
    t.help = Some("\n  First line\nSecond line  \n".to_string());
    assert_eq!(get_help(&t), "First line\nSecond line");
}

#[test]
fn vars_file_formats() {
    assert_eq!(vars_file_format("/a/vars.json").ok(), Some(VarsFormat::Json));
    assert_eq!(vars_file_format("/a/vars.YML").ok(), Some(VarsFormat::Yaml));
    assert_eq!(vars_file_format("/a/vars.yaml").ok(), Some(VarsFormat::Yaml));
    assert_eq!(vars_file_format("b.c.toml").ok(), Some(VarsFormat::Toml));
    assert_eq!(vars_file_format("/a/x.env").ok(), Some(VarsFormat::Env));
    assert_eq!(
        vars_file_format("/a/.env").err(),
        Some(mom_task::errors::TaskError::ConfigError(
            "Unsupported file extension for vars file at /a/.env".to_string()
        ))
    );
    assert!(vars_file_format("/a/vars.txt").is_err());
}
