//! The agent SDK's errors and the project scaffolds `hawk sdk init`
//! writes for a new agent in Rust, Python or TypeScript.
use vstd::prelude::*;

use crate::bus::{channel_ids, debug_quoted, message_problem, subs_of, BusError, BusMessage, MessageBus, TopicView};
use crate::memory::{query_result, stored, EntryView, InMemoryStore, MemoryError, MemoryScope};
use crate::text::{contains_seq, match_at, push_str, str_eq, texts, to_string};

verus! {

#[derive(Debug)]
pub enum SdkError {
    Validation(String),
    Bus(BusError),
    Memory(MemoryError),
    DuplicateHandler(String),
}

/// The files of a scaffold: (path, contents).
#[derive(Debug)]
pub struct ScaffoldFiles {
    pub files: Vec<(String, String)>,
}

/// The agent manifest of a scaffold.
pub open spec fn manifest_text(name: Seq<char>, entry: Seq<char>) -> Seq<char> {
    "[agent]\nname = \""@ + name + "\"\nversion = \"0.1.0\"\ndescription = \"\"\nframework = \"custom\"\nentry_command = \""@ + entry + "\"\n\n[permissions]\nfilesystem = []\nnetwork = []\ncommands = []\nsecrets = []\n\n[resources]\ncpu_percent = 25\nmemory_mb = 256\nmax_open_fds = 32\n"@
}
/// `src/main.rs` of a Rust agent.
pub open spec fn rust_main_text(name: Seq<char>) -> Seq<char> {
    "use hawk_sdk_rust::{HawkClient, Scope};\n\n#[tokio::main]\nasync fn main() -> anyhow::Result<()> {\n    let pid = std::process::id();\n    let client = HawkClient::connect(pid)?;\n    client.register_handler(\"task.run\", Box::new(|msg| println!(\"Received: {:?}\", msg.method)))?;\n    let mut rx = client.subscribe(\""@ + name + ".events\")?;\n    client.publish(\""@ + name + ".status\", serde_json::json!({\"jsonrpc\": \"2.0\", \"method\": \"agent.ready\", \"params\": {\"agent\": \""@ + name + "\"}})).await?;\n    while let Some(msg) = rx.recv().await { client.dispatch(&msg); }\n    Ok(())\n}\n"@
}
/// `Cargo.toml` of a Rust agent.
pub open spec fn cargo_toml_text(name: Seq<char>) -> Seq<char> {
    "[package]\nname = \""@ + name + "\"\nversion = \"0.1.0\"\nedition = \"2021\"\n\n[dependencies]\nhawk-sdk-rust = { path = \"../hawk-sdk-rust\" }\ntokio = { version = \"1\", features = [\"full\"] }\nserde_json = \"1\"\nanyhow = \"1\"\n"@
}
/// `main.py` of a Python agent.
pub open spec fn python_main_text(name: Seq<char>) -> Seq<char> {
    "import os\nimport hawk_bus\n\ndef on_task_run(msg):\n    print(f\"Received: {msg['method']}\")\n\ndef main():\n    pid = os.getpid()\n    client = hawk_bus.HawkClient.connect(pid)\n    client.register_handler(\"task.run\", on_task_run)\n    rx = client.subscribe(\""@ + name + ".events\")\n    client.publish(\""@ + name + ".status\", {\"jsonrpc\": \"2.0\", \"method\": \"agent.ready\", \"params\": {\"agent\": \""@ + name + "\"}})\n    for msg in rx:\n        client.dispatch(msg)\n\nif __name__ == \"__main__\":\n    main()\n"@
}
/// `src/index.ts` of a TypeScript agent.
pub open spec fn index_ts_text(name: Seq<char>) -> Seq<char> {
    "import { HawkClient, BusMessage } from 'hawk-sdk';\n\nasync function main() {\n  const client = HawkClient.connect(process.pid);\n  client.registerHandler('task.run', (msg: BusMessage) => console.log('Received:', msg.method));\n  const rx = client.subscribe('"@ + name + ".events');\n  await client.publish('"@ + name + ".status', { jsonrpc: '2.0', method: 'agent.ready', params: { agent: '"@ + name + "' } });\n  for await (const msg of rx) { client.dispatch(msg); }\n}\n\nmain().catch(console.error);\n"@
}
/// `package.json` of a TypeScript agent.
pub open spec fn package_json_text(name: Seq<char>) -> Seq<char> {
    "{\n  \"name\": \""@ + name + "\",\n  \"version\": \"0.1.0\",\n  \"main\": \"dist/index.js\",\n  \"scripts\": { \"build\": \"tsc\", \"start\": \"node dist/index.js\" },\n  \"dependencies\": { \"hawk-sdk\": \"^0.1.0\" },\n  \"devDependencies\": { \"typescript\": \"^5.0.0\", \"@types/node\": \"^20.0.0\" }\n}\n"@
}

/// The files of a scaffold: (path, contents).
pub open spec fn file_views(files: Seq<(String, String)>) -> Seq<(Seq<char>, Seq<char>)> {
    files.map_values(|f: (String, String)| (f.0@, f.1@))
}

/// The scaffold for `language`, or `None` for a language without one.
pub open spec fn scaffold_spec(language: Seq<char>, name: Seq<char>) -> Option<Seq<(Seq<char>, Seq<char>)>> {
    if language == "rust"@ {
        Some(seq![
            ("Agent_Manifest.toml"@, manifest_text(name, "cargo run"@)),
            ("src/main.rs"@, rust_main_text(name)),
            ("Cargo.toml"@, cargo_toml_text(name)),
        ])
    } else if language == "python"@ {
        Some(seq![
            ("Agent_Manifest.toml"@, manifest_text(name, "python main.py"@)),
            ("main.py"@, python_main_text(name)),
            ("requirements.txt"@, "hawk-sdk\n"@),
        ])
    } else if language == "typescript"@ {
        Some(seq![
            ("Agent_Manifest.toml"@, manifest_text(name, "node dist/index.js"@)),
            ("src/index.ts"@, index_ts_text(name)),
            ("package.json"@, package_json_text(name)),
        ])
    } else {
        None
    }
}

/// Each supported language, and only those, gets a scaffold of three files
/// with distinct paths, the agent manifest first.
pub proof fn scaffolds_hold_three_distinct_files(language: Seq<char>, name: Seq<char>)
    ensures
        scaffold_spec(language, name) is Some <==> (language == "rust"@ || language == "python"@ || language
            == "typescript"@),
        scaffold_spec(language, name) matches Some(fs) ==> fs.len() == 3 && fs[0].0 == "Agent_Manifest.toml"@
            && fs[0].0 != fs[1].0 && fs[0].0 != fs[2].0 && fs[1].0 != fs[2].0,
{
    reveal_strlit("Agent_Manifest.toml");
    reveal_strlit("src/main.rs");
    reveal_strlit("Cargo.toml");
    reveal_strlit("main.py");
    reveal_strlit("requirements.txt");
    reveal_strlit("src/index.ts");
    reveal_strlit("package.json");
    let m = "Agent_Manifest.toml"@;
    assert(m.len() == 19);
    if language == "rust"@ {
        assert("src/main.rs"@.len() == 11 && "Cargo.toml"@.len() == 10);
    } else if language == "python"@ {
        assert("main.py"@.len() == 7 && "requirements.txt"@.len() == 16);
    } else if language == "typescript"@ {
        assert("src/index.ts"@.len() == 12 && "package.json"@.len() == 12);
        assert("src/index.ts"@[0] != "package.json"@[0]);
    }
}

proof fn lemma_manifest_entry_line(name: Seq<char>, entry: Seq<char>)
    ensures
        contains_seq(manifest_text(name, entry), "entry_command = \""@ + entry + "\"\n"@),
{
    let a = "[agent]\nname = \""@;
    let b = "\"\nversion = \"0.1.0\"\ndescription = \"\"\nframework = \"custom\"\nentry_command = \""@;
    let c = "\"\n\n[permissions]\nfilesystem = []\nnetwork = []\ncommands = []\nsecrets = []\n\n[resources]\ncpu_percent = 25\nmemory_mb = 256\nmax_open_fds = 32\n"@;
    let e = "entry_command = \""@;
    let f = "\"\n"@;
    reveal_strlit("\"\nversion = \"0.1.0\"\ndescription = \"\"\nframework = \"custom\"\nentry_command = \"");
    reveal_strlit("\"\n\n[permissions]\nfilesystem = []\nnetwork = []\ncommands = []\nsecrets = []\n\n[resources]\ncpu_percent = 25\nmemory_mb = 256\nmax_open_fds = 32\n");
    reveal_strlit("entry_command = \"");
    reveal_strlit("\"\n");
    let t = manifest_text(name, entry);
    assert(t == a + name + b + entry + c);
    assert(b.subrange(b.len() - e.len(), b.len() as int) =~= e);
    assert(c.subrange(0, 2) =~= f);
    let needle = e + entry + f;
    let i = a.len() + name.len() + b.len() - e.len();
    assert(t.subrange(i, i + needle.len()) =~= needle);
    assert(match_at(t, needle, i));
}

/// Each scaffold's manifest comes first and names the command that starts
/// the agent in its language: `cargo run` for Rust, `python main.py` (the
/// scaffold's `main.py`) for Python, `node dist/index.js` (the compiled
/// `src/index.ts`) for TypeScript.
pub proof fn scaffold_manifest_names_its_entry_command(name: Seq<char>)
    ensures
        scaffold_spec("rust"@, name) matches Some(fs) && fs[0].0 == "Agent_Manifest.toml"@ && contains_seq(
            fs[0].1,
            "entry_command = \"cargo run\"\n"@,
        ),
        scaffold_spec("python"@, name) matches Some(fs) && fs[0].0 == "Agent_Manifest.toml"@ && contains_seq(
            fs[0].1,
            "entry_command = \"python main.py\"\n"@,
        ),
        scaffold_spec("typescript"@, name) matches Some(fs) && fs[0].0 == "Agent_Manifest.toml"@ && contains_seq(
            fs[0].1,
            "entry_command = \"node dist/index.js\"\n"@,
        ),
{
    reveal_strlit("rust");
    reveal_strlit("python");
    reveal_strlit("typescript");
    reveal_strlit("entry_command = \"");
    reveal_strlit("\"\n");
    reveal_strlit("cargo run");
    reveal_strlit("python main.py");
    reveal_strlit("node dist/index.js");
    reveal_strlit("entry_command = \"cargo run\"\n");
    reveal_strlit("entry_command = \"python main.py\"\n");
    reveal_strlit("entry_command = \"node dist/index.js\"\n");
    assert("rust"@.len() == 4 && "python"@.len() == 6 && "typescript"@.len() == 10);
    lemma_manifest_entry_line(name, "cargo run"@);
    lemma_manifest_entry_line(name, "python main.py"@);
    lemma_manifest_entry_line(name, "node dist/index.js"@);
    assert("entry_command = \""@ + "cargo run"@ + "\"\n"@ =~= "entry_command = \"cargo run\"\n"@);
    assert("entry_command = \""@ + "python main.py"@ + "\"\n"@ =~= "entry_command = \"python main.py\"\n"@);
    assert("entry_command = \""@ + "node dist/index.js"@ + "\"\n"@ =~= "entry_command = \"node dist/index.js\"\n"@);
}

fn manifest(name: &str, entry: &str) -> (s: String)
    ensures
        s@ == manifest_text(name@, entry@),
{
    let mut s = String::new();
    push_str(&mut s, "[agent]\nname = \"");
    push_str(&mut s, name);
    push_str(&mut s, "\"\nversion = \"0.1.0\"\ndescription = \"\"\nframework = \"custom\"\nentry_command = \"");
    push_str(&mut s, entry);
    push_str(&mut s, "\"\n\n[permissions]\nfilesystem = []\nnetwork = []\ncommands = []\nsecrets = []\n\n[resources]\ncpu_percent = 25\nmemory_mb = 256\nmax_open_fds = 32\n");
    proof {
        assert(s@ =~= "[agent]\nname = \""@ + name@ + "\"\nversion = \"0.1.0\"\ndescription = \"\"\nframework = \"custom\"\nentry_command = \""@ + entry@ + "\"\n\n[permissions]\nfilesystem = []\nnetwork = []\ncommands = []\nsecrets = []\n\n[resources]\ncpu_percent = 25\nmemory_mb = 256\nmax_open_fds = 32\n"@);
    }
    s
}
fn rust_main(name: &str) -> (s: String)
    ensures
        s@ == rust_main_text(name@),
{
    let mut s = String::new();
    push_str(&mut s, "use hawk_sdk_rust::{HawkClient, Scope};\n\n#[tokio::main]\nasync fn main() -> anyhow::Result<()> {\n    let pid = std::process::id();\n    let client = HawkClient::connect(pid)?;\n    client.register_handler(\"task.run\", Box::new(|msg| println!(\"Received: {:?}\", msg.method)))?;\n    let mut rx = client.subscribe(\"");
    push_str(&mut s, name);
    push_str(&mut s, ".events\")?;\n    client.publish(\"");
    push_str(&mut s, name);
    push_str(&mut s, ".status\", serde_json::json!({\"jsonrpc\": \"2.0\", \"method\": \"agent.ready\", \"params\": {\"agent\": \"");
    push_str(&mut s, name);
    push_str(&mut s, "\"}})).await?;\n    while let Some(msg) = rx.recv().await { client.dispatch(&msg); }\n    Ok(())\n}\n");
    proof {
        assert(s@ =~= "use hawk_sdk_rust::{HawkClient, Scope};\n\n#[tokio::main]\nasync fn main() -> anyhow::Result<()> {\n    let pid = std::process::id();\n    let client = HawkClient::connect(pid)?;\n    client.register_handler(\"task.run\", Box::new(|msg| println!(\"Received: {:?}\", msg.method)))?;\n    let mut rx = client.subscribe(\""@ + name@ + ".events\")?;\n    client.publish(\""@ + name@ + ".status\", serde_json::json!({\"jsonrpc\": \"2.0\", \"method\": \"agent.ready\", \"params\": {\"agent\": \""@ + name@ + "\"}})).await?;\n    while let Some(msg) = rx.recv().await { client.dispatch(&msg); }\n    Ok(())\n}\n"@);
    }
    s
}
fn cargo_toml(name: &str) -> (s: String)
    ensures
        s@ == cargo_toml_text(name@),
{
    let mut s = String::new();
    push_str(&mut s, "[package]\nname = \"");
    push_str(&mut s, name);
    push_str(&mut s, "\"\nversion = \"0.1.0\"\nedition = \"2021\"\n\n[dependencies]\nhawk-sdk-rust = { path = \"../hawk-sdk-rust\" }\ntokio = { version = \"1\", features = [\"full\"] }\nserde_json = \"1\"\nanyhow = \"1\"\n");
    proof {
        assert(s@ =~= "[package]\nname = \""@ + name@ + "\"\nversion = \"0.1.0\"\nedition = \"2021\"\n\n[dependencies]\nhawk-sdk-rust = { path = \"../hawk-sdk-rust\" }\ntokio = { version = \"1\", features = [\"full\"] }\nserde_json = \"1\"\nanyhow = \"1\"\n"@);
    }
    s
}
fn python_main(name: &str) -> (s: String)
    ensures
        s@ == python_main_text(name@),
{
    let mut s = String::new();
    push_str(&mut s, "import os\nimport hawk_bus\n\ndef on_task_run(msg):\n    print(f\"Received: {msg['method']}\")\n\ndef main():\n    pid = os.getpid()\n    client = hawk_bus.HawkClient.connect(pid)\n    client.register_handler(\"task.run\", on_task_run)\n    rx = client.subscribe(\"");
    push_str(&mut s, name);
    push_str(&mut s, ".events\")\n    client.publish(\"");
    push_str(&mut s, name);
    push_str(&mut s, ".status\", {\"jsonrpc\": \"2.0\", \"method\": \"agent.ready\", \"params\": {\"agent\": \"");
    push_str(&mut s, name);
    push_str(&mut s, "\"}})\n    for msg in rx:\n        client.dispatch(msg)\n\nif __name__ == \"__main__\":\n    main()\n");
    proof {
        assert(s@ =~= "import os\nimport hawk_bus\n\ndef on_task_run(msg):\n    print(f\"Received: {msg['method']}\")\n\ndef main():\n    pid = os.getpid()\n    client = hawk_bus.HawkClient.connect(pid)\n    client.register_handler(\"task.run\", on_task_run)\n    rx = client.subscribe(\""@ + name@ + ".events\")\n    client.publish(\""@ + name@ + ".status\", {\"jsonrpc\": \"2.0\", \"method\": \"agent.ready\", \"params\": {\"agent\": \""@ + name@ + "\"}})\n    for msg in rx:\n        client.dispatch(msg)\n\nif __name__ == \"__main__\":\n    main()\n"@);
    }
    s
}
fn index_ts(name: &str) -> (s: String)
    ensures
        s@ == index_ts_text(name@),
{
    let mut s = String::new();
    push_str(&mut s, "import { HawkClient, BusMessage } from 'hawk-sdk';\n\nasync function main() {\n  const client = HawkClient.connect(process.pid);\n  client.registerHandler('task.run', (msg: BusMessage) => console.log('Received:', msg.method));\n  const rx = client.subscribe('");
    push_str(&mut s, name);
    push_str(&mut s, ".events');\n  await client.publish('");
    push_str(&mut s, name);
    push_str(&mut s, ".status', { jsonrpc: '2.0', method: 'agent.ready', params: { agent: '");
    push_str(&mut s, name);
    push_str(&mut s, "' } });\n  for await (const msg of rx) { client.dispatch(msg); }\n}\n\nmain().catch(console.error);\n");
    proof {
        assert(s@ =~= "import { HawkClient, BusMessage } from 'hawk-sdk';\n\nasync function main() {\n  const client = HawkClient.connect(process.pid);\n  client.registerHandler('task.run', (msg: BusMessage) => console.log('Received:', msg.method));\n  const rx = client.subscribe('"@ + name@ + ".events');\n  await client.publish('"@ + name@ + ".status', { jsonrpc: '2.0', method: 'agent.ready', params: { agent: '"@ + name@ + "' } });\n  for await (const msg of rx) { client.dispatch(msg); }\n}\n\nmain().catch(console.error);\n"@);
    }
    s
}
fn package_json(name: &str) -> (s: String)
    ensures
        s@ == package_json_text(name@),
{
    let mut s = String::new();
    push_str(&mut s, "{\n  \"name\": \"");
    push_str(&mut s, name);
    push_str(&mut s, "\",\n  \"version\": \"0.1.0\",\n  \"main\": \"dist/index.js\",\n  \"scripts\": { \"build\": \"tsc\", \"start\": \"node dist/index.js\" },\n  \"dependencies\": { \"hawk-sdk\": \"^0.1.0\" },\n  \"devDependencies\": { \"typescript\": \"^5.0.0\", \"@types/node\": \"^20.0.0\" }\n}\n");
    proof {
        assert(s@ =~= "{\n  \"name\": \""@ + name@ + "\",\n  \"version\": \"0.1.0\",\n  \"main\": \"dist/index.js\",\n  \"scripts\": { \"build\": \"tsc\", \"start\": \"node dist/index.js\" },\n  \"dependencies\": { \"hawk-sdk\": \"^0.1.0\" },\n  \"devDependencies\": { \"typescript\": \"^5.0.0\", \"@types/node\": \"^20.0.0\" }\n}\n"@);
    }
    s
}

fn three_files(a: (String, String), b: (String, String), c: (String, String)) -> (r: ScaffoldFiles)
    ensures
        file_views(r.files@) == seq![(a.0@, a.1@), (b.0@, b.1@), (c.0@, c.1@)],
{
    let files = vec![a, b, c];
    assert(file_views(files@) =~= seq![(a.0@, a.1@), (b.0@, b.1@), (c.0@, c.1@)]);
    ScaffoldFiles { files }
}

/// The scaffold of an agent named `agent_name` in `language` (`rust`,
/// `python` or `typescript`).
pub fn generate(language: &str, agent_name: &str) -> (r: Result<ScaffoldFiles, String>)
    ensures
        match scaffold_spec(language@, agent_name@) {
            Some(files) => r matches Ok(s) && file_views(s.files@) == files,
            None => r matches Err(m) && m@ == "unsupported language: "@ + language@
                + ". Use rust, python, or typescript"@,
        },
{
    if str_eq(language, "rust") {
        Ok(three_files(
            (to_string("Agent_Manifest.toml"), manifest(agent_name, "cargo run")),
            (to_string("src/main.rs"), rust_main(agent_name)),
            (to_string("Cargo.toml"), cargo_toml(agent_name)),
        ))
    } else if str_eq(language, "python") {
        Ok(three_files(
            (to_string("Agent_Manifest.toml"), manifest(agent_name, "python main.py")),
            (to_string("main.py"), python_main(agent_name)),
            (to_string("requirements.txt"), to_string("hawk-sdk\n")),
        ))
    } else if str_eq(language, "typescript") {
        Ok(three_files(
            (to_string("Agent_Manifest.toml"), manifest(agent_name, "node dist/index.js")),
            (to_string("src/index.ts"), index_ts(agent_name)),
            (to_string("package.json"), package_json(agent_name)),
        ))
    } else {
        let mut m = to_string("unsupported language: ");
        push_str(&mut m, language);
        push_str(&mut m, ". Use rust, python, or typescript");
        Err(m)
    }
}


impl SdkError {
    /// The error's message, as the program prints it.
    pub fn message(&self) -> (s: String)
        ensures
            s@ == match *self {
                SdkError::Validation(m) => "validation error: "@ + m@,
                SdkError::Bus(e) => "bus error: "@ + crate::bus::bus_error_text(e),
                SdkError::Memory(e) => "memory error: "@ + crate::memory::memory_error_text(e),
                SdkError::DuplicateHandler(m) => "handler already registered for method: "@ + m@,
            },
    {
        match self {
            SdkError::Validation(m) => crate::error::prefixed("validation error: ", m),
            SdkError::Bus(e) => {
                let t = e.message();
                crate::error::prefixed("bus error: ", &t)
            },
            SdkError::Memory(e) => {
                let t = e.message();
                crate::error::prefixed("memory error: ", &t)
            },
            SdkError::DuplicateHandler(m) => crate::error::prefixed("handler already registered for method: ", m),
        }
    }
}

// ── The client an agent holds ────────────────────────────────────────────────

/// What `Value::get(key)` then `Value::as_str` finds in a JSON value: the
/// text of member `key` when the value is an object whose member `key` is a
/// string.
pub uninterp spec fn json_str_member(v: serde_json::Value, key: Seq<char>) -> Option<Seq<char>>;

/// What `Value::get(key)` then `Value::as_u64` finds: member `key` when it
/// is a non-negative integer that fits a `u64`.
pub uninterp spec fn json_u64_member(v: serde_json::Value, key: Seq<char>) -> Option<u64>;

/// What `Value::get(key).cloned().unwrap_or(Value::Null)` gives: member
/// `key`, or `null` when there is none.
pub uninterp spec fn json_member_or_null(v: serde_json::Value, key: Seq<char>) -> serde_json::Value;

/// `Value::get(key).and_then(Value::as_str)`, as an owned string.
#[verifier::external_body]
fn str_member(v: &serde_json::Value, key: &str) -> (r: Option<String>)
    ensures
        match r {
            Some(s) => json_str_member(*v, key@) == Some(s@),
            None => json_str_member(*v, key@) is None,
        },
{
    v.get(key).and_then(|x| x.as_str()).map(|x| x.to_owned())
}

/// `Value::get(key).and_then(Value::as_u64)`.
#[verifier::external_body]
fn u64_member(v: &serde_json::Value, key: &str) -> (r: Option<u64>)
    ensures
        r == json_u64_member(*v, key@),
{
    v.get(key).and_then(|x| x.as_u64())
}

/// `Value::get(key).cloned().unwrap_or(Value::Null)`.
#[verifier::external_body]
fn member_or_null(v: &serde_json::Value, key: &str) -> (r: serde_json::Value)
    ensures
        r == json_member_or_null(*v, key@),
{
    v.get(key).cloned().unwrap_or(serde_json::Value::Null)
}

/// The text of a string member, or the empty text.
pub open spec fn text_member(v: serde_json::Value, key: Seq<char>) -> Seq<char> {
    match json_str_member(v, key) {
        Some(s) => s,
        None => Seq::empty(),
    }
}

/// The message a payload makes: its version and method texts (empty when
/// missing), its parameters (`null` when missing) and its numeric id.
pub open spec fn payload_message(payload: serde_json::Value) -> (Seq<char>, Seq<char>, serde_json::Value, Option<u64>) {
    (
        text_member(payload, "jsonrpc"@),
        text_member(payload, "method"@),
        json_member_or_null(payload, "params"@),
        json_u64_member(payload, "id"@),
    )
}

/// Why a payload cannot be published, if it cannot.
pub open spec fn payload_problem(payload: serde_json::Value) -> Option<Seq<char>> {
    let jsonrpc = text_member(payload, "jsonrpc"@);
    let method = text_member(payload, "method"@);
    if jsonrpc != "2.0"@ {
        Some("jsonrpc must be \"2.0\", got "@ + debug_quoted(jsonrpc))
    } else if method.len() == 0 {
        Some("method must not be empty"@)
    } else {
        None
    }
}

/// An agent's connection to the kernel: its bus, its shared memory, and
/// the methods it has registered handlers for, in registration order (the
/// agent keeps the handlers themselves in the same order).
pub struct HawkClient {
    pid: u32,
    bus: MessageBus,
    memory: InMemoryStore,
    handler_methods: Vec<String>,
}

impl HawkClient {
    pub closed spec fn pid_view(&self) -> u32 {
        self.pid
    }

    pub closed spec fn topics(&self) -> Seq<TopicView> {
        self.bus.topics()
    }

    pub closed spec fn next_channel(&self) -> u64 {
        self.bus.next_id_view()
    }

    pub closed spec fn memory_live(&self) -> Map<Seq<char>, EntryView> {
        self.memory.live()
    }

    pub closed spec fn handlers(&self) -> Seq<Seq<char>> {
        texts(self.handler_methods@)
    }

    /// A client for agent `pid`, with an empty bus and memory and no handler.
    pub fn connect(pid: u32) -> (r: Result<HawkClient, SdkError>)
        ensures
            r matches Ok(c) && c.pid_view() == pid && c.topics().len() == 0 && c.next_channel() == 0
                && c.memory_live() == Map::<Seq<char>, EntryView>::empty() && c.handlers().len() == 0,
    {
        let c = HawkClient { pid, bus: MessageBus::new(), memory: InMemoryStore::new(), handler_methods: Vec::new() };
        assert(texts(c.handler_methods@) =~= Seq::<Seq<char>>::empty());
        Ok(c)
    }

    pub fn pid(&self) -> (p: u32)
        ensures
            p == self.pid_view(),
    {
        self.pid
    }

    /// Publishes a JSON-RPC payload on `topic`: the message it makes and the
    /// channels it goes to, one per subscription. A payload whose version is
    /// not `"2.0"`, or whose method is empty, is refused.
    pub fn publish(&self, topic: &str, payload: &serde_json::Value) -> (r: Result<(BusMessage, Vec<u64>), SdkError>)
        ensures
            match payload_problem(*payload) {
                Some(m) => r matches Err(SdkError::Validation(e)) && e@ == m,
                None => r matches Ok((msg, ids)) && (msg.jsonrpc@, msg.method@, msg.params, msg.id) == payload_message(
                    *payload,
                ) && ids@ == match subs_of(self.topics(), topic@) {
                    Some(s) => channel_ids(s),
                    None => Seq::empty(),
                },
            },
    {
        proof {
            reveal_strlit("jsonrpc");
            reveal_strlit("method");
        }
        let jsonrpc = match str_member(payload, "jsonrpc") {
            Some(s) => s,
            None => String::new(),
        };
        let method = match str_member(payload, "method") {
            Some(s) => s,
            None => String::new(),
        };
        if !str_eq(jsonrpc.as_str(), "2.0") {
            let mut m = to_string("jsonrpc must be \"2.0\", got ");
            let d = crate::bus::debug_string(jsonrpc.as_str());
            crate::text::push_string(&mut m, &d);
            return Err(SdkError::Validation(m));
        }
        if method.unicode_len() == 0 {
            return Err(SdkError::Validation(to_string("method must not be empty")));
        }
        let msg = BusMessage {
            jsonrpc,
            method,
            params: member_or_null(payload, "params"),
            id: u64_member(payload, "id"),
        };
        proof {
            assert(message_problem(msg.jsonrpc@, msg.method@) is None);
        }
        match self.bus.publish_targets(topic, &msg) {
            Ok(ids) => Ok((msg, ids)),
            Err(e) => Err(SdkError::Bus(e)),
        }
    }

    /// Whether another subscription can be made.
    pub fn can_subscribe(&self) -> (b: bool)
        ensures
            b == (self.next_channel() < u64::MAX),
    {
        self.bus.can_subscribe()
    }

    /// Subscribes the agent to `topic`; returns the id of the channel its
    /// messages arrive on.
    pub fn subscribe(&mut self, topic: &str) -> (r: Result<u64, SdkError>)
        requires
            old(self).next_channel() < u64::MAX,
        ensures
            r matches Ok(id) && id == old(self).next_channel() && final(self).next_channel() == id + 1
                && subs_of(final(self).topics(), topic@) == Some(
                match subs_of(old(self).topics(), topic@) {
                    Some(s) => s,
                    None => Seq::empty(),
                }.push((old(self).pid_view(), id)),
            ),
            forall|u: Seq<char>| u != topic@ ==> #[trigger] subs_of(final(self).topics(), u) == subs_of(
                old(self).topics(),
                u,
            ),
            final(self).pid_view() == old(self).pid_view(),
            final(self).memory_live() == old(self).memory_live(),
            final(self).handlers() == old(self).handlers(),
    {
        let id = self.bus.subscribe(self.pid, topic);
        Ok(id)
    }

    /// The value stored under `key`, as the shared memory finds it.
    pub fn memory_get(&self, key: &str) -> (r: Result<Option<Vec<u8>>, SdkError>)
        ensures
            match r {
                Ok(Some(v)) => exists|e: EntryView| query_result(self.memory_live(), key@, Some(e)) && e.value == v@,
                Ok(None) => query_result(self.memory_live(), key@, None),
                Err(_) => false,
            },
    {
        match self.memory.query(key) {
            Ok(Some(e)) => {
                let ghost ev = e@;
                assert(query_result(self.memory_live(), key@, Some(ev)) && ev.value == e.value@);
                Ok(Some(e.value))
            },
            Ok(None) => Ok(None),
            Err(e) => Err(SdkError::Memory(e)),
        }
    }

    /// Stores `value` under (`scope`, `key`) as this agent's.
    pub fn memory_set(&mut self, scope: MemoryScope, key: &str, value: &[u8]) -> (r: Result<(), SdkError>)
        ensures
            r is Ok,
            stored(old(self).memory_live(), final(self).memory_live(), scope@, key@, value@, old(self).pid_view()),
            final(self).pid_view() == old(self).pid_view(),
            final(self).topics() == old(self).topics(),
            final(self).next_channel() == old(self).next_channel(),
            final(self).handlers() == old(self).handlers(),
    {
        match self.memory.store(scope, key, value, self.pid) {
            Ok(()) => Ok(()),
            Err(e) => Err(SdkError::Memory(e)),
        }
    }

    /// Registers a handler for `method`; a method has at most one.
    pub fn register_handler(&mut self, method: &str) -> (r: Result<(), SdkError>)
        ensures
            old(self).handlers().contains(method@) ==> (r matches Err(SdkError::DuplicateHandler(m)) && m@ == method@
                && final(self).handlers() == old(self).handlers()),
            !old(self).handlers().contains(method@) ==> (r is Ok && final(self).handlers() == old(self).handlers().push(
                method@,
            )),
            final(self).pid_view() == old(self).pid_view(),
            final(self).topics() == old(self).topics(),
            final(self).next_channel() == old(self).next_channel(),
            final(self).memory_live() == old(self).memory_live(),
    {
        match self.handler_for(method) {
            Some(_) => Err(SdkError::DuplicateHandler(to_string(method))),
            None => {
                let ghost before = self.handlers();
                self.handler_methods.push(to_string(method));
                assert(self.handlers() =~= before.push(method@));
                Ok(())
            },
        }
    }

    /// The position of the handler registered for `method`, if any: the
    /// handler a message with that method is dispatched to.
    pub fn handler_for(&self, method: &str) -> (r: Option<usize>)
        ensures
            match r {
                Some(i) => i < self.handlers().len() && self.handlers()[i as int] == method@,
                None => !self.handlers().contains(method@),
            },
    {
        let mut i: usize = 0;
        while i < self.handler_methods.len()
            invariant
                i <= self.handler_methods@.len(),
                forall|j: int| 0 <= j < i ==> texts(self.handler_methods@)[j] != method@,
            decreases self.handler_methods@.len() - i,
        {
            if str_eq(self.handler_methods[i].as_str(), method) {
                return Some(i);
            }
            i = i + 1;
        }
        proof {
            if texts(self.handler_methods@).contains(method@) {
                let j = choose|j: int| 0 <= j < texts(self.handler_methods@).len() && texts(self.handler_methods@)[j] == method@;
                assert(texts(self.handler_methods@)[j] != method@);
            }
        }
        None
    }
}

} // verus!
