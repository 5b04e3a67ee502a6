//! The commands that build, run and serve the applications.

use vstd::prelude::*;

use crate::args::{
    arg_texts, flags_have_values, read_flag, read_flags, serve_args, ServeFault, ServeModel,
};
use crate::number::{int_text, law_written_ports_read_back, unsigned_text};
use crate::scene_text::separated;
use crate::text::chars_of;

verus! {

/// A program that a command runs.
#[derive(Debug, Clone, Copy, PartialEq, Eq, Structural)]
pub enum Tool {
    /// The build tool that runs this program.
    Cargo,
    /// The build tool by its usual name.
    PlainCargo,
    /// The toolchain manager.
    Rustup,
    /// The generator of web glue.
    WasmBindgen,
}

/// A command: a program, its arguments, and what to call it if it fails.
#[derive(Debug, PartialEq, Eq)]
pub struct Step {
    /// The program.
    pub tool: Tool,
    /// Its arguments.
    pub args: Vec<String>,
    /// What to call it.
    pub context: String,
}

/// What a [`Step`] stands for.
#[verifier::ext_equal]
pub struct StepModel {
    /// The program.
    pub tool: Tool,
    /// Its arguments.
    pub args: Seq<Seq<char>>,
    /// What to call it.
    pub context: Seq<char>,
}

impl View for Step {
    type V = StepModel;

    open spec fn view(&self) -> StepModel {
        StepModel { tool: self.tool, args: arg_texts(self.args@), context: self.context@ }
    }
}

/// The meanings of a list of commands.
pub open spec fn step_models(s: Seq<Step>) -> Seq<StepModel> {
    Seq::new(s.len(), |i: int| s[i]@)
}

/// The target of web builds.
pub open spec fn wasm_target() -> Seq<char> {
    "wasm32-unknown-unknown"@
}

/// Building the native application.
pub open spec fn native_build() -> StepModel {
    StepModel {
        tool: Tool::Cargo,
        args: seq!["build"@, "-p"@, "app-native"@],
        context: "cargo build -p app-native"@,
    }
}

/// Building the web application.
pub open spec fn web_build() -> StepModel {
    StepModel {
        tool: Tool::Cargo,
        args: seq!["build"@, "-p"@, "app-web"@, "--target"@, wasm_target()],
        context: "cargo build -p app-web --target wasm32-unknown-unknown"@,
    }
}

/// Building the mock server.
pub open spec fn mock_build() -> StepModel {
    StepModel {
        tool: Tool::Cargo,
        args: seq!["build"@, "-p"@, "mock-server"@],
        context: "cargo build -p mock-server"@,
    }
}

/// Installing the target of web builds.
pub open spec fn target_install() -> StepModel {
    StepModel {
        tool: Tool::Rustup,
        args: seq!["target"@, "add"@, wasm_target()],
        context: "rustup target add"@,
    }
}

/// Installing the generator of web glue.
pub open spec fn bindgen_install() -> StepModel {
    StepModel {
        tool: Tool::PlainCargo,
        args: seq!["install"@, "wasm-bindgen-cli"@],
        context: "cargo install wasm-bindgen-cli"@,
    }
}

/// Generating the web glue of the build `wasm` into `dist`.
pub open spec fn bindgen_run(dist: Seq<char>, wasm: Seq<char>) -> StepModel {
    StepModel {
        tool: Tool::WasmBindgen,
        args: seq!["--target"@, "web"@, "--no-typescript"@, "--out-dir"@, dist, wasm],
        context: "wasm-bindgen"@,
    }
}

/// Append an argument.
fn put_arg(args: &mut Vec<String>, arg: &str)
    ensures
        arg_texts(final(args)@) == arg_texts(old(args)@).push(arg@),
{
    args.push(arg.to_owned());
    assert(arg_texts(args@) =~= arg_texts(old(args)@).push(arg@));
}

/// No arguments.
fn no_args() -> (r: Vec<String>)
    ensures
        arg_texts(r@) == Seq::<Seq<char>>::empty(),
{
    let r: Vec<String> = Vec::new();
    assert(arg_texts(r@) =~= Seq::<Seq<char>>::empty());
    r
}

/// The command that builds the native application.
pub fn native_build_step() -> (r: Step)
    ensures
        r@ == native_build(),
{
    let mut args = no_args();
    put_arg(&mut args, "build");
    put_arg(&mut args, "-p");
    put_arg(&mut args, "app-native");
    assert(arg_texts(args@) =~= native_build().args);
    Step { tool: Tool::Cargo, args, context: "cargo build -p app-native".to_owned() }
}

/// The command that builds the web application.
pub fn web_build_step() -> (r: Step)
    ensures
        r@ == web_build(),
{
    let mut args = no_args();
    put_arg(&mut args, "build");
    put_arg(&mut args, "-p");
    put_arg(&mut args, "app-web");
    put_arg(&mut args, "--target");
    put_arg(&mut args, "wasm32-unknown-unknown");
    assert(arg_texts(args@) =~= web_build().args);
    Step {
        tool: Tool::Cargo,
        args,
        context: "cargo build -p app-web --target wasm32-unknown-unknown".to_owned(),
    }
}

/// The command that builds the mock server.
pub fn mock_build_step() -> (r: Step)
    ensures
        r@ == mock_build(),
{
    let mut args = no_args();
    put_arg(&mut args, "build");
    put_arg(&mut args, "-p");
    put_arg(&mut args, "mock-server");
    assert(arg_texts(args@) =~= mock_build().args);
    Step { tool: Tool::Cargo, args, context: "cargo build -p mock-server".to_owned() }
}

/// The command that installs the target of web builds.
fn target_install_step() -> (r: Step)
    ensures
        r@ == target_install(),
{
    let mut args = no_args();
    put_arg(&mut args, "target");
    put_arg(&mut args, "add");
    put_arg(&mut args, "wasm32-unknown-unknown");
    assert(arg_texts(args@) =~= target_install().args);
    Step { tool: Tool::Rustup, args, context: "rustup target add".to_owned() }
}

/// The command that installs the generator of web glue.
fn bindgen_install_step() -> (r: Step)
    ensures
        r@ == bindgen_install(),
{
    let mut args = no_args();
    put_arg(&mut args, "install");
    put_arg(&mut args, "wasm-bindgen-cli");
    assert(arg_texts(args@) =~= bindgen_install().args);
    Step { tool: Tool::PlainCargo, args, context: "cargo install wasm-bindgen-cli".to_owned() }
}

/// The command that generates the web glue of the build `wasm` into `dist`.
pub fn bindgen_step(dist: &str, wasm: &str) -> (r: Step)
    ensures
        r@ == bindgen_run(dist@, wasm@),
{
    let mut args = no_args();
    put_arg(&mut args, "--target");
    put_arg(&mut args, "web");
    put_arg(&mut args, "--no-typescript");
    put_arg(&mut args, "--out-dir");
    put_arg(&mut args, dist);
    put_arg(&mut args, wasm);
    assert(arg_texts(args@) =~= bindgen_run(dist@, wasm@).args);
    Step { tool: Tool::WasmBindgen, args, context: "wasm-bindgen".to_owned() }
}

/// What is left to do before both applications are built.
pub open spec fn all_builds(has_target: bool) -> Seq<StepModel> {
    if has_target {
        seq![native_build(), web_build()]
    } else {
        seq![target_install(), native_build(), web_build()]
    }
}

/// The commands that build both applications, in order: the target of web
/// builds is installed first if it is missing.
pub fn cmd_build_all(has_target: bool) -> (r: Vec<Step>)
    ensures
        step_models(r@) == all_builds(has_target),
{
    let mut steps: Vec<Step> = Vec::new();
    if !has_target {
        steps.push(target_install_step());
    }
    steps.push(native_build_step());
    steps.push(web_build_step());
    assert(step_models(steps@) =~= all_builds(has_target));
    steps
}

/// What is left to do before the web application is built.
pub open spec fn web_builds(has_target: bool, has_bindgen: bool) -> Seq<StepModel> {
    let first = if has_target {
        Seq::empty()
    } else {
        seq![target_install()]
    };
    let second = if has_bindgen {
        Seq::empty()
    } else {
        seq![bindgen_install()]
    };
    first + second + seq![web_build()]
}

/// The commands that build the web application, in order: what is missing is
/// installed first.
pub fn web_build_steps(has_target: bool, has_bindgen: bool) -> (r: Vec<Step>)
    ensures
        step_models(r@) == web_builds(has_target, has_bindgen),
{
    let mut steps: Vec<Step> = Vec::new();
    if !has_target {
        steps.push(target_install_step());
    }
    if !has_bindgen {
        steps.push(bindgen_install_step());
    }
    steps.push(web_build_step());
    assert(step_models(steps@) =~= web_builds(has_target, has_bindgen));
    steps
}

/// The arguments of a server that runs in the background, behind the word that
/// asks for it.
pub open spec fn server_arguments(dist: Seq<char>, port: u16, example: Seq<char>) -> Seq<
    Seq<char>,
> {
    seq!["--dist"@, dist, "--port"@, int_text(port as int), "--example"@, example]
}

/// The arguments of a server that runs in the background.
pub fn serve_arguments(dist: &str, port: u16, example: &str) -> (r: Vec<String>)
    ensures
        arg_texts(r@) == server_arguments(dist@, port, example@),
{
    let mut args = no_args();
    put_arg(&mut args, "--dist");
    put_arg(&mut args, dist);
    put_arg(&mut args, "--port");
    put_arg(&mut args, unsigned_text(port as u64).as_str());
    put_arg(&mut args, "--example");
    put_arg(&mut args, example);
    assert(arg_texts(args@) =~= server_arguments(dist@, port, example@));
    args
}

/// A server that is started in the background reads the directory, port and
/// example that it was given.
pub proof fn law_server_reads_what_it_is_given(dist: Seq<char>, port: u16, example: Seq<char>)
    ensures
        flags_have_values(server_arguments(dist, port, example)),
        serve_args(server_arguments(dist, port, example)) == Ok::<
            (Seq<char>, u16, Seq<char>),
            ServeFault,
        >((dist, port, example)),
{
    reveal_strlit("--dist");
    reveal_strlit("--port");
    reveal_strlit("--example");
    assert("--dist"@.len() == 6 && "--port"@.len() == 6 && "--example"@.len() == 9);
    assert("--dist"@[2] == 'd' && "--port"@[2] == 'p');
    law_written_ports_read_back(port);
    let args = server_arguments(dist, port, example);
    let m0 = ServeModel { dist: None, port: None, example: "smoke"@ };
    let m1 = ServeModel { dist: Some(dist), ..m0 };
    let m2 = ServeModel { port: Some(port), ..m1 };
    let m3 = ServeModel { example, ..m2 };
    assert(read_flag(m0, args[0], args[1]) == Ok::<ServeModel, ServeFault>(m1));
    assert(read_flag(m1, args[2], args[3]) == Ok::<ServeModel, ServeFault>(m2));
    assert(read_flag(m2, args[4], args[5]) == Ok::<ServeModel, ServeFault>(m3));
    assert(read_flags(m3, args, 6) == Ok::<ServeModel, ServeFault>(m3));
    assert(read_flags(m2, args, 4) == Ok::<ServeModel, ServeFault>(m3));
    assert(read_flags(m1, args, 2) == Ok::<ServeModel, ServeFault>(m3));
    assert(read_flags(m0, args, 0) == Ok::<ServeModel, ServeFault>(m3));
}

/// White space, as Unicode has it.
pub open spec fn is_white(c: char) -> bool {
    let n = c as u32;
    ||| 0x9 <= n <= 0xd
    ||| n == 0x20
    ||| n == 0x85
    ||| n == 0xa0
    ||| n == 0x1680
    ||| 0x2000 <= n <= 0x200a
    ||| n == 0x2028
    ||| n == 0x2029
    ||| n == 0x202f
    ||| n == 0x205f
    ||| n == 0x3000
}

/// Whether a character is white space.
fn white(c: char) -> (r: bool)
    ensures
        r == is_white(c),
{
    let n: u32 = c as u32;
    (n >= 0x9 && n <= 0xd) || n == 0x20 || n == 0x85 || n == 0xa0 || n == 0x1680 || (n >= 0x2000
        && n <= 0x200a) || n == 0x2028 || n == 0x2029 || n == 0x202f || n == 0x205f || n == 0x3000
}

/// At `l` in `s` stands `word`, alone in its line but for white space.
pub open spec fn alone_in_line(s: Seq<char>, word: Seq<char>, l: int) -> bool {
    &&& 0 <= l
    &&& l + word.len() <= s.len()
    &&& s.subrange(l, l + word.len() as int) == word
    &&& white_back_to_line_start(s, l)
    &&& white_on_to_line_end(s, l + word.len() as int)
}

/// Before `l`, back to the start of the line, is only white space.
pub open spec fn white_back_to_line_start(s: Seq<char>, l: int) -> bool
    decreases l,
{
    l <= 0 || s[l - 1] == '\n' || (is_white(s[l - 1]) && white_back_to_line_start(s, l - 1))
}

/// From `r` on to the end of the line is only white space.
pub open spec fn white_on_to_line_end(s: Seq<char>, r: int) -> bool
    decreases s.len() - r,
{
    r >= s.len() || s[r] == '\n' || (is_white(s[r]) && white_on_to_line_end(s, r + 1))
}

/// Some line of `s` is `word`, but for white space around it.
pub open spec fn lists_word(s: Seq<char>, word: Seq<char>) -> bool {
    exists|l: int| alone_in_line(s, word, l)
}

/// Whether only white space stands before `l` in its line.
fn starts_line(s: &Vec<char>, l: usize) -> (r: bool)
    requires
        l <= s@.len(),
    ensures
        r == white_back_to_line_start(s@, l as int),
    decreases l,
{
    if l == 0 || s[l - 1] == '\n' {
        true
    } else if white(s[l - 1]) {
        starts_line(s, l - 1)
    } else {
        false
    }
}

/// Whether only white space stands from `r` on in its line.
fn ends_line(s: &Vec<char>, r: usize) -> (b: bool)
    requires
        r <= s@.len(),
    ensures
        b == white_on_to_line_end(s@, r as int),
    decreases s@.len() - r,
{
    if r == s.len() || s[r] == '\n' {
        true
    } else if white(s[r]) {
        ends_line(s, r + 1)
    } else {
        false
    }
}

/// Whether the characters `word` stand in `s` at `l`.
fn stands_here(s: &Vec<char>, word: &Vec<char>, l: usize) -> (b: bool)
    requires
        l + word@.len() <= s@.len(),
    ensures
        b == (s@.subrange(l as int, l + word@.len()) == word@),
{
    let whole = s.len();
    let mut k: usize = 0;
    while k < word.len()
        invariant
            whole == s@.len(),
            l + word@.len() <= s@.len(),
            k <= word@.len(),
            forall|j: int| 0 <= j < k ==> #[trigger] s@[l + j] == word@[j],
        decreases word@.len() - k,
    {
        if s[l + k] != word[k] {
            assert(s@.subrange(l as int, l + word@.len())[k as int] != word@[k as int]);
            return false;
        }
        k = k + 1;
    }
    assert(s@.subrange(l as int, l + word@.len()) =~= word@) by {
        assert forall|j: int| 0 <= j < word@.len() implies s@.subrange(
            l as int,
            l + word@.len(),
        )[j] == word@[j] by {
            assert(s@[l + j] == word@[j]);
        }
    }
    true
}

/// Whether a list of installed targets, one to a line, has the target of web
/// builds.
pub fn has_wasm_target(listing: &str) -> (r: bool)
    ensures
        r == lists_word(listing@, wasm_target()),
{
    let s = chars_of(listing);
    let word = chars_of("wasm32-unknown-unknown");
    if word.len() > s.len() {
        return false;
    }
    let whole = s.len();
    let last = whole - word.len();
    let mut l: usize = 0;
    loop
        invariant
            s@ == listing@,
            word@ == wasm_target(),
            whole == s@.len(),
            word@.len() <= s@.len(),
            last == s@.len() - word@.len(),
            l <= last,
            forall|k: int| 0 <= k < l ==> !alone_in_line(s@, word@, k),
        decreases last - l,
    {
        if stands_here(&s, &word, l) && starts_line(&s, l) && ends_line(&s, l + word.len()) {
            assert(alone_in_line(s@, word@, l as int));
            return true;
        }
        if l == last {
            return false;
        }
        l = l + 1;
    }
}

/// What to do about the dump of a running application.
#[derive(Debug, Clone, Copy, PartialEq, Eq, Structural)]
pub enum InspectStep {
    /// Read and show it.
    Show,
    /// Wait a moment and look again.
    WaitAndLookAgain,
    /// Give up: there is none.
    GiveUp,
}

/// What to do about the dump of a running application: one that is there is
/// shown, one that is not is waited for once.
pub fn cmd_inspect_ax(is_there: bool, waited: bool) -> (r: InspectStep)
    ensures
        (r is Show) == is_there,
        (r is WaitAndLookAgain) == (!is_there && !waited),
        (r is GiveUp) == (!is_there && waited),
{
    if is_there {
        InspectStep::Show
    } else if waited {
        InspectStep::GiveUp
    } else {
        InspectStep::WaitAndLookAgain
    }
}

/// Both applications are built, the native one first, and the target of web builds
/// is installed before them if and only if it is missing.
pub proof fn law_builds_install_what_is_missing_first(has_target: bool, has_bindgen: bool)
    ensures
        all_builds(true) == seq![native_build(), web_build()],
        all_builds(false) == seq![target_install()] + all_builds(true),
        web_builds(true, true) == seq![web_build()],
        web_builds(true, false) == seq![bindgen_install()] + web_builds(true, true),
        web_builds(false, has_bindgen) == seq![target_install()] + web_builds(true, has_bindgen),
{
    assert(all_builds(false) =~= seq![target_install()] + all_builds(true));
    assert(web_builds(true, true) =~= seq![web_build()]);
    assert(web_builds(true, false) =~= seq![bindgen_install()] + web_builds(true, true));
    assert(web_builds(false, has_bindgen) =~= seq![target_install()] + web_builds(
        true,
        has_bindgen,
    ));
}

/// White space may stand around a word in its line: the word is listed.
pub proof fn law_lines_are_listed(
    before: Seq<char>,
    left: Seq<char>,
    word: Seq<char>,
    right: Seq<char>,
    after: Seq<char>,
)
    requires
        before.len() == 0 || before.last() == '\n',
        after.len() == 0 || after[0] == '\n',
        forall|i: int| 0 <= i < left.len() ==> is_white(#[trigger] left[i]),
        forall|i: int| 0 <= i < right.len() ==> is_white(#[trigger] right[i]),
    ensures
        lists_word(before + left + word + right + after, word),
{
    let s = before + left + word + right + after;
    let l = (before.len() + left.len()) as int;
    let r = l + word.len() as int;
    assert(s.subrange(l, r) =~= word);
    lemma_white_back(s, before.len() as int, l);
    lemma_white_on(s, r, r + right.len() as int);
    assert(alone_in_line(s, word, l));
}

/// White space back to the start of a line, or of the text.
proof fn lemma_white_back(s: Seq<char>, start: int, l: int)
    requires
        0 <= start <= l <= s.len(),
        start == 0 || s[start - 1] == '\n',
        forall|i: int| start <= i < l ==> is_white(#[trigger] s[i]),
    ensures
        white_back_to_line_start(s, l),
    decreases l - start,
{
    if l > start {
        lemma_white_back(s, start, l - 1);
    }
}

/// White space on to the end of a line, or of the text.
proof fn lemma_white_on(s: Seq<char>, r: int, end: int)
    requires
        0 <= r <= end <= s.len(),
        end == s.len() || s[end] == '\n',
        forall|i: int| r <= i < end ==> is_white(#[trigger] s[i]),
    ensures
        white_on_to_line_end(s, r),
    decreases end - r,
{
    if r < end {
        lemma_white_on(s, r + 1, end);
    }
}

/// What is listed stands alone in its line: from the start of the line to the word,
/// and from the word to the end of the line, there is nothing but white space.
pub proof fn law_listed_words_stand_alone(s: Seq<char>, word: Seq<char>)
    requires
        lists_word(s, word),
    ensures
        exists|l: int, start: int, end: int|
            0 <= start <= l && l + word.len() <= end <= s.len() && #[trigger] s.subrange(
                l,
                l + word.len() as int,
            ) == word && #[trigger] line_part(s, start, end) && (forall|i: int|
                start <= i < l || l + word.len() <= i < end ==> is_white(#[trigger] s[i])),
{
    let l = choose|l: int| alone_in_line(s, word, l);
    let r = l + word.len() as int;
    let start = lemma_line_start(s, l);
    let end = lemma_line_end(s, r);
    assert(s.subrange(l, r) == word && line_part(s, start, end));
}

/// `start` is where a line or the text starts, `end` where a line or the text ends.
pub open spec fn line_part(s: Seq<char>, start: int, end: int) -> bool {
    (start == 0 || s[start - 1] == '\n') && (end == s.len() || s[end] == '\n')
}

proof fn lemma_line_start(s: Seq<char>, l: int) -> (start: int)
    requires
        0 <= l <= s.len(),
        white_back_to_line_start(s, l),
    ensures
        0 <= start <= l,
        start == 0 || s[start - 1] == '\n',
        forall|i: int| start <= i < l ==> is_white(#[trigger] s[i]),
    decreases l,
{
    if l == 0 || s[l - 1] == '\n' {
        l
    } else {
        lemma_line_start(s, l - 1)
    }
}

proof fn lemma_line_end(s: Seq<char>, r: int) -> (end: int)
    requires
        0 <= r <= s.len(),
        white_on_to_line_end(s, r),
    ensures
        r <= end <= s.len(),
        end == s.len() || s[end] == '\n',
        forall|i: int| r <= i < end ==> is_white(#[trigger] s[i]),
    decreases s.len() - r,
{
    if r == s.len() || s[r] == '\n' {
        r
    } else {
        lemma_line_end(s, r + 1)
    }
}

/// A build is called by what it runs: the name of the program and the arguments,
/// with blanks between them. Installing a target is called so too, up to the target.
#[verifier::spinoff_prover]
pub proof fn law_builds_are_called_by_what_they_run()
    ensures
        native_build().context == "cargo "@ + separated(native_build().args, " "@),
        web_build().context == "cargo "@ + separated(web_build().args, " "@),
        mock_build().context == "cargo "@ + separated(mock_build().args, " "@),
        bindgen_install().context == "cargo "@ + separated(bindgen_install().args, " "@),
        target_install().context + " "@ + wasm_target() == "rustup "@ + separated(
            target_install().args,
            " "@,
        ),
{
    reveal_strlit("cargo ");
    reveal_strlit("rustup ");
    reveal_strlit(" ");
    reveal_strlit("build");
    reveal_strlit("install");
    reveal_strlit("-p");
    reveal_strlit("app-native");
    reveal_strlit("app-web");
    reveal_strlit("mock-server");
    reveal_strlit("--target");
    reveal_strlit("target");
    reveal_strlit("add");
    reveal_strlit("wasm32-unknown-unknown");
    reveal_strlit("wasm-bindgen-cli");
    reveal_strlit("cargo build -p app-native");
    reveal_strlit("cargo build -p app-web --target wasm32-unknown-unknown");
    reveal_strlit("cargo build -p mock-server");
    reveal_strlit("cargo install wasm-bindgen-cli");
    reveal_strlit("rustup target add");
    let two = seq!["build"@, "-p"@];
    lemma_one_more_word(seq!["build"@], "-p"@);
    assert(seq!["build"@].push("-p"@) =~= two);
    lemma_one_more_word(two, "app-native"@);
    assert(two.push("app-native"@) =~= native_build().args);
    assert(native_build().context =~= "cargo "@ + separated(native_build().args, " "@));
    lemma_one_more_word(two, "mock-server"@);
    assert(two.push("mock-server"@) =~= mock_build().args);
    assert(mock_build().context =~= "cargo "@ + separated(mock_build().args, " "@));
    let three = seq!["build"@, "-p"@, "app-web"@];
    lemma_one_more_word(two, "app-web"@);
    assert(two.push("app-web"@) =~= three);
    lemma_one_more_word(three, "--target"@);
    lemma_one_more_word(three.push("--target"@), wasm_target());
    assert(three.push("--target"@).push(wasm_target()) =~= web_build().args);
    assert(web_build().context =~= "cargo "@ + separated(web_build().args, " "@));
    lemma_one_more_word(seq!["install"@], "wasm-bindgen-cli"@);
    assert(seq!["install"@].push("wasm-bindgen-cli"@) =~= bindgen_install().args);
    assert(bindgen_install().context =~= "cargo "@ + separated(bindgen_install().args, " "@));
    lemma_one_more_word(seq!["target"@], "add"@);
    lemma_one_more_word(seq!["target"@].push("add"@), wasm_target());
    assert(seq!["target"@].push("add"@).push(wasm_target()) =~= target_install().args);
    assert(target_install().context + " "@ + wasm_target() =~= "rustup "@ + separated(
        target_install().args,
        " "@,
    ));
}

/// One more word behind others.
proof fn lemma_one_more_word(words: Seq<Seq<char>>, word: Seq<char>)
    requires
        words.len() > 0,
    ensures
        separated(words.push(word), " "@) == separated(words, " "@) + " "@ + word,
{
    assert(words.push(word).drop_last() =~= words);
}

} // verus!
