//! Command lines and settings.

use vstd::prelude::*;

use crate::number::{parse_port, port_value};
use crate::scene::opt_text;
use crate::text::{chars_of, same_text};

verus! {

/// The texts of a list of strings.
pub open spec fn arg_texts(args: Seq<String>) -> Seq<Seq<char>> {
    Seq::new(args.len(), |i: int| args[i]@)
}

/// `--example` with its value stands at `i`.
pub open spec fn example_at(args: Seq<Seq<char>>, i: int) -> bool {
    &&& 1 <= i
    &&& i + 1 < args.len()
    &&& args[i] == "--example"@
}

/// The example that a command line asks for: the value of the first
/// `--example` after the name of the program, or `smoke`.
pub open spec fn example_name(args: Seq<Seq<char>>) -> Seq<char> {
    if exists|i: int| first_example(args, i) {
        args[(choose|i: int| first_example(args, i)) + 1]
    } else {
        "smoke"@
    }
}

/// The first `--example` with a value stands at `i`.
pub open spec fn first_example(args: Seq<Seq<char>>, i: int) -> bool {
    example_at(args, i) && forall|j: int| 1 <= j < i ==> !#[trigger] example_at(args, j)
}

/// Read the example from the command line.
pub fn parse_example_arg(args: &[String]) -> (r: String)
    ensures
        r@ == example_name(arg_texts(args@)),
{
    let ghost texts = arg_texts(args@);
    let mut i: usize = 1;
    while i < args.len()
        invariant
            texts == arg_texts(args@),
            1 <= i,
            i <= args@.len() || args@.len() == 0,
            forall|j: int| 1 <= j < i ==> !#[trigger] example_at(texts, j),
        decreases args@.len() - i,
    {
        if same_text(args[i].as_str(), "--example") && i < args.len() - 1 {
            proof {
                assert(first_example(texts, i as int));
                let k = choose|k: int| first_example(texts, k);
                assert(k == i) by {
                    if k < i {
                        assert(!example_at(texts, k));
                    }
                    if i < k {
                        assert(!example_at(texts, i as int));
                    }
                }
            }
            return args[i + 1].clone();
        }
        assert(!example_at(texts, i as int));
        i = i + 1;
    }
    assert forall|k: int| !first_example(texts, k) by {
        if first_example(texts, k) {
            assert(!example_at(texts, k));
        }
    }
    "smoke".to_owned()
}

/// The path of the scene file of an example.
pub fn scene_file(example: &str) -> (r: String)
    ensures
        r@ == "examples/"@ + example@ + "/scene.json"@,
{
    "examples/".to_owned().concat(example).concat("/scene.json")
}

/// What the server of the web bundle is started with.
#[derive(Debug, PartialEq, Eq)]
pub struct ServeArgs {
    /// Directory of the bundle.
    pub dist: String,
    /// Port to listen on.
    pub port: u16,
    /// Name of the example.
    pub example: String,
}

/// Why the server cannot be started.
#[derive(Debug, PartialEq, Eq)]
pub enum ServeArgsError {
    /// An argument that is none of the flags.
    Unexpected(String),
    /// A port that is no 16-bit number.
    BadPort(String),
    /// No directory was given.
    MissingDist,
    /// No port was given.
    MissingPort,
}

/// What flags have been read so far.
pub struct ServeModel {
    /// Directory.
    pub dist: Option<Seq<char>>,
    /// Port.
    pub port: Option<u16>,
    /// Example.
    pub example: Seq<char>,
}

/// What an error stands for.
pub enum ServeFault {
    /// An argument that is none of the flags.
    Unexpected(Seq<char>),
    /// A port that is no 16-bit number.
    BadPort(Seq<char>),
    /// No directory was given.
    MissingDist,
    /// No port was given.
    MissingPort,
}

impl View for ServeArgsError {
    type V = ServeFault;

    open spec fn view(&self) -> ServeFault {
        match *self {
            ServeArgsError::Unexpected(a) => ServeFault::Unexpected(a@),
            ServeArgsError::BadPort(p) => ServeFault::BadPort(p@),
            ServeArgsError::MissingDist => ServeFault::MissingDist,
            ServeArgsError::MissingPort => ServeFault::MissingPort,
        }
    }
}

/// Reading one flag with its value.
pub open spec fn read_flag(m: ServeModel, flag: Seq<char>, value: Seq<char>) -> Result<
    ServeModel,
    ServeFault,
> {
    if flag == "--dist"@ {
        Ok(ServeModel { dist: Some(value), ..m })
    } else if flag == "--port"@ {
        match port_value(value) {
            Some(p) => Ok(ServeModel { port: Some(p), ..m }),
            None => Err(ServeFault::BadPort(value)),
        }
    } else if flag == "--example"@ {
        Ok(ServeModel { example: value, ..m })
    } else {
        Err(ServeFault::Unexpected(flag))
    }
}

/// An argument is one of the flags.
pub open spec fn is_flag(arg: Seq<char>) -> bool {
    arg == "--dist"@ || arg == "--port"@ || arg == "--example"@
}

/// Reading flags and their values from `i` on: the last value of a flag counts,
/// and the first error ends it.
pub open spec fn read_flags(m: ServeModel, args: Seq<Seq<char>>, i: int) -> Result<
    ServeModel,
    ServeFault,
>
    decreases args.len() - i,
{
    if i >= args.len() {
        Ok(m)
    } else if i + 1 == args.len() {
        Err(ServeFault::Unexpected(args[i]))
    } else {
        match read_flag(m, args[i], args[i + 1]) {
            Ok(next) => read_flags(next, args, i + 2),
            Err(e) => Err(e),
        }
    }
}

/// Nothing read yet.
pub open spec fn no_flags() -> ServeModel {
    ServeModel { dist: None, port: None, example: "smoke"@ }
}

/// No flag is reached that has no value behind it: where the last argument
/// stands in the place of a flag, it is none, or something before it is wrong.
pub open spec fn flags_have_values(args: Seq<Seq<char>>) -> bool {
    args.len() % 2 == 1 && is_flag(args.last()) ==> read_flags(
        no_flags(),
        args.drop_last(),
        0,
    ) is Err
}

/// What the arguments of the server come to.
pub open spec fn serve_args(args: Seq<Seq<char>>) -> Result<
    (Seq<char>, u16, Seq<char>),
    ServeFault,
> {
    match read_flags(no_flags(), args, 0) {
        Ok(m) => match (m.dist, m.port) {
            (None, _) => Err(ServeFault::MissingDist),
            (_, None) => Err(ServeFault::MissingPort),
            (Some(dist), Some(port)) => Ok((dist, port, m.example)),
        },
        Err(e) => Err(e),
    }
}

/// Read the arguments of the server of the web bundle.
pub fn parse_serve_args(args: &[String]) -> (r: Result<ServeArgs, ServeArgsError>)
    requires
        flags_have_values(arg_texts(args@)),
    ensures
        match r {
            Ok(a) => serve_args(arg_texts(args@)) == Ok::<
                (Seq<char>, u16, Seq<char>),
                ServeFault,
            >((a.dist@, a.port, a.example@)),
            Err(e) => serve_args(arg_texts(args@)) == Err::<
                (Seq<char>, u16, Seq<char>),
                ServeFault,
            >(e@),
        },
{
    let ghost texts = arg_texts(args@);
    let mut dist: Option<String> = None;
    let mut port: Option<u16> = None;
    let mut example: String = "smoke".to_owned();
    let mut i: usize = 0;
    while i < args.len()
        invariant
            texts == arg_texts(args@),
            flags_have_values(texts),
            i <= args@.len(),
            i % 2 == 0,
            read_flags(no_flags(), texts, 0) == read_flags(
                ServeModel { dist: opt_text(dist), port, example: example@ },
                texts,
                i as int,
            ),
            texts.len() % 2 == 1 ==> read_flags(no_flags(), texts.drop_last(), 0) == read_flags(
                ServeModel { dist: opt_text(dist), port, example: example@ },
                texts.drop_last(),
                i as int,
            ),
        decreases args@.len() - i,
    {
        let flag = args[i].as_str();
        let is_dist = same_text(flag, "--dist");
        let is_port = same_text(flag, "--port");
        let is_example = same_text(flag, "--example");
        if !is_dist && !is_port && !is_example {
            return Err(ServeArgsError::Unexpected(args[i].clone()));
        }
        assert(i + 1 < args@.len()) by {
            if i + 1 == args@.len() {
                assert(texts.last() == texts[i as int]);
            }
        }
        let value = &args[i + 1];
        if is_dist {
            dist = Some(value.clone());
        } else if is_port {
            match parse_port(value.as_str()) {
                Some(p) => {
                    port = Some(p);
                },
                None => {
                    return Err(ServeArgsError::BadPort(value.clone()));
                },
            }
        } else {
            example = value.clone();
        }
        i = i + 2;
    }
    match dist {
        None => Err(ServeArgsError::MissingDist),
        Some(dist) => match port {
            None => Err(ServeArgsError::MissingPort),
            Some(port) => Ok(ServeArgs { dist, port, example }),
        },
    }
}

/// The port of the mock server where nothing else is asked for.
pub const MOCK_SERVER_PORT: u16 = 8138;

/// The number in an optional text.
pub open spec fn opt_port(text: Option<Seq<char>>) -> Option<u16> {
    match text {
        Some(t) => port_value(t),
        None => None,
    }
}

/// The text of an optional string slice.
pub open spec fn opt_str(text: Option<&str>) -> Option<Seq<char>> {
    match text {
        Some(t) => Some(t@),
        None => None,
    }
}

/// The port of the mock server: the command-line argument if it is a port, else
/// the setting from the environment if it is one, else the usual one.
pub fn resolve_port(arg: Option<&str>, setting: Option<&str>) -> (r: u16)
    ensures
        r == match opt_port(opt_str(arg)) {
            Some(p) => p,
            None => match opt_port(opt_str(setting)) {
                Some(p) => p,
                None => MOCK_SERVER_PORT,
            },
        },
{
    if let Some(text) = arg {
        if let Some(p) = parse_port(text) {
            return p;
        }
    }
    if let Some(text) = setting {
        if let Some(p) = parse_port(text) {
            return p;
        }
    }
    MOCK_SERVER_PORT
}

/// The scenes that come with the web bundle.
#[derive(Debug, Clone, Copy, PartialEq, Eq, Structural)]
pub enum BundledScene {
    /// A static scene.
    Smoke,
    /// A counter with a button.
    Counter,
}

/// `needle` stands in `hay` at `i`.
pub open spec fn stands_at(hay: Seq<char>, needle: Seq<char>, i: int) -> bool {
    &&& 0 <= i
    &&& i + needle.len() <= hay.len()
    &&& hay.subrange(i, i + needle.len() as int) == needle
}

/// `needle` stands somewhere in `hay`.
pub open spec fn holds_text(hay: Seq<char>, needle: Seq<char>) -> bool {
    exists|i: int| stands_at(hay, needle, i)
}

/// Whether `needle` stands somewhere in `hay`.
pub fn contains_text(hay: &str, needle: &str) -> (r: bool)
    ensures
        r == holds_text(hay@, needle@),
{
    let h = chars_of(hay);
    let n = chars_of(needle);
    if n.len() > h.len() {
        return false;
    }
    let whole = h.len();
    let last = whole - n.len();
    let mut i: usize = 0;
    loop
        invariant
            h@ == hay@,
            n@ == needle@,
            whole == h@.len(),
            n@.len() <= h@.len(),
            last == h@.len() - n@.len(),
            i <= last,
            forall|j: int| 0 <= j < i ==> !stands_at(hay@, needle@, j),
        decreases last - i,
    {
        let mut k: usize = 0;
        while k < n.len() && h[i + k] == n[k]
            invariant
                h@ == hay@,
                n@ == needle@,
                whole == h@.len(),
                n@.len() <= h@.len(),
                last == h@.len() - n@.len(),
                i <= last,
                k <= n@.len(),
                forall|j: int| 0 <= j < k ==> #[trigger] h@[i + j] == n@[j],
            decreases n@.len() - k,
        {
            k = k + 1;
        }
        if k == n.len() {
            assert(hay@.subrange(i as int, i + needle@.len()) =~= needle@) by {
                assert forall|j: int| 0 <= j < needle@.len() implies hay@.subrange(
                    i as int,
                    i + needle@.len(),
                )[j] == needle@[j] by {
                    assert(h@[i + j] == n@[j]);
                }
            }
            assert(stands_at(hay@, needle@, i as int));
            return true;
        }
        assert(!stands_at(hay@, needle@, i as int)) by {
            if stands_at(hay@, needle@, i as int) {
                assert(hay@.subrange(i as int, i + needle@.len())[k as int] == needle@[k as int]);
            }
        }
        if i == last {
            return false;
        }
        i = i + 1;
    }
}

/// The scene that a page shows, by its path: the counter where the path names
/// it, else the static scene, also where there is no path.
pub fn select_scene(path: Option<&str>) -> (r: BundledScene)
    ensures
        r == (if path is Some && holds_text(path->Some_0@, "counter"@) {
            BundledScene::Counter
        } else {
            BundledScene::Smoke
        }),
{
    match path {
        Some(p) => if contains_text(p, "counter") {
            BundledScene::Counter
        } else {
            BundledScene::Smoke
        },
        None => BundledScene::Smoke,
    }
}

/// The example is the word behind the first `--example` that has one, after the
/// name of the program, and `smoke` where there is none.
pub proof fn law_the_first_example_counts(args: Seq<Seq<char>>, i: int)
    ensures
        1 <= i && i + 1 < args.len() && args[i] == "--example"@ && (forall|j: int|
            1 <= j < i ==> (#[trigger] args[j]) != "--example"@) ==> example_name(args) == args[i
            + 1],
        (forall|j: int| 1 <= j && j + 1 < args.len() ==> (#[trigger] args[j]) != "--example"@)
            ==> example_name(args) == "smoke"@,
{
    if 1 <= i && i + 1 < args.len() && args[i] == "--example"@ && (forall|j: int|
        1 <= j < i ==> (#[trigger] args[j]) != "--example"@) {
        assert forall|j: int| 1 <= j < i implies !#[trigger] example_at(args, j) by {
            assert(args[j] != "--example"@);
        }
        assert(first_example(args, i));
        let k = choose|k: int| first_example(args, k);
        if k < i {
            assert(!example_at(args, k));
        }
        if i < k {
            assert(!example_at(args, i));
        }
    }
    if forall|j: int| 1 <= j && j + 1 < args.len() ==> (#[trigger] args[j]) != "--example"@ {
        assert forall|k: int| !first_example(args, k) by {
            if first_example(args, k) {
                assert(args[k] != "--example"@);
            }
        }
    }
}

/// The flags are different words.
proof fn lemma_flags_differ()
    ensures
        "--dist"@ != "--port"@,
        "--dist"@ != "--example"@,
        "--port"@ != "--example"@,
{
    reveal_strlit("--dist");
    reveal_strlit("--port");
    reveal_strlit("--example");
    assert("--dist"@[2] == 'd' && "--port"@[2] == 'p');
    assert("--example"@.len() == 9 && "--dist"@.len() == 6 && "--port"@.len() == 6);
}

/// Flags are read pair by pair.
proof fn lemma_flags_add_up(
    m: ServeModel,
    args: Seq<Seq<char>>,
    i: int,
    flag: Seq<char>,
    value: Seq<char>,
)
    requires
        0 <= i <= args.len(),
        (args.len() - i) % 2 == 0,
    ensures
        read_flags(m, args.push(flag).push(value), i) == match read_flags(m, args, i) {
            Ok(next) => read_flag(next, flag, value),
            Err(e) => Err(e),
        },
    decreases args.len() - i,
{
    let more = args.push(flag).push(value);
    if i < args.len() {
        assert(more[i] == args[i] && more[i + 1] == args[i + 1]);
        if let Ok(next) = read_flag(m, args[i], args[i + 1]) {
            lemma_flags_add_up(next, args, i + 2, flag, value);
        }
    } else {
        assert(more[i] == flag && more[i + 1] == value);
        if let Ok(next) = read_flag(m, flag, value) {
            assert(read_flags(next, more, i + 2) == Ok::<ServeModel, ServeFault>(next));
        }
    }
}

/// One more flag with its value sets just what it is for, in place of what was set
/// before, and leaves the rest; a port that is none, and a word that is no flag,
/// are refused; and what was refused before stays so. To begin with, neither
/// directory nor port is set, and the example is `smoke`.
pub proof fn law_each_flag_sets_its_own(args: Seq<Seq<char>>, value: Seq<char>, word: Seq<char>)
    requires
        args.len() % 2 == 0,
    ensures
        read_flags(no_flags(), Seq::empty(), 0) matches Ok(m) && m.dist is None && m.port is None
            && m.example == "smoke"@,
        read_flags(no_flags(), args, 0) matches Err(e) ==> read_flags(
            no_flags(),
            args.push(word).push(value),
            0,
        ) == Err::<ServeModel, ServeFault>(e),
        read_flags(no_flags(), args, 0) matches Ok(m) ==> {
            &&& read_flags(no_flags(), args.push("--dist"@).push(value), 0) == Ok::<
                ServeModel,
                ServeFault,
            >(ServeModel { dist: Some(value), port: m.port, example: m.example })
            &&& read_flags(no_flags(), args.push("--example"@).push(value), 0) == Ok::<
                ServeModel,
                ServeFault,
            >(ServeModel { dist: m.dist, port: m.port, example: value })
            &&& port_value(value) matches Some(p) ==> read_flags(
                no_flags(),
                args.push("--port"@).push(value),
                0,
            ) == Ok::<ServeModel, ServeFault>(
                ServeModel { dist: m.dist, port: Some(p), example: m.example },
            )
            &&& port_value(value) is None ==> read_flags(
                no_flags(),
                args.push("--port"@).push(value),
                0,
            ) == Err::<ServeModel, ServeFault>(ServeFault::BadPort(value))
            &&& word != "--dist"@ && word != "--port"@ && word != "--example"@ ==> read_flags(
                no_flags(),
                args.push(word).push(value),
                0,
            ) == Err::<ServeModel, ServeFault>(ServeFault::Unexpected(word))
        },
{
    lemma_flags_differ();
    lemma_flags_add_up(no_flags(), args, 0, "--dist"@, value);
    lemma_flags_add_up(no_flags(), args, 0, "--port"@, value);
    lemma_flags_add_up(no_flags(), args, 0, "--example"@, value);
    lemma_flags_add_up(no_flags(), args, 0, word, value);
}

/// A word without a value behind it is refused, unless something before it is.
pub proof fn law_words_without_a_value_are_refused(args: Seq<Seq<char>>, word: Seq<char>)
    requires
        args.len() % 2 == 0,
    ensures
        read_flags(no_flags(), args.push(word), 0) == match read_flags(no_flags(), args, 0) {
            Ok(_) => Err::<ServeModel, ServeFault>(ServeFault::Unexpected(word)),
            Err(e) => Err(e),
        },
{
    lemma_lone_word(no_flags(), args, 0, word);
}

proof fn lemma_lone_word(m: ServeModel, args: Seq<Seq<char>>, i: int, word: Seq<char>)
    requires
        0 <= i <= args.len(),
        (args.len() - i) % 2 == 0,
    ensures
        read_flags(m, args.push(word), i) == match read_flags(m, args, i) {
            Ok(_) => Err::<ServeModel, ServeFault>(ServeFault::Unexpected(word)),
            Err(e) => Err(e),
        },
    decreases args.len() - i,
{
    let more = args.push(word);
    if i < args.len() {
        assert(more[i] == args[i] && more[i + 1] == args[i + 1]);
        if let Ok(next) = read_flag(m, args[i], args[i + 1]) {
            lemma_lone_word(next, args, i + 2, word);
        }
    }
}

/// A server needs a directory and a port: with both it starts on them, without a
/// directory that is missing, and without a port that is.
pub proof fn law_a_server_needs_directory_and_port(args: Seq<Seq<char>>)
    ensures
        read_flags(no_flags(), args, 0) matches Err(e) ==> serve_args(args) == Err::<
            (Seq<char>, u16, Seq<char>),
            ServeFault,
        >(e),
        read_flags(no_flags(), args, 0) matches Ok(m) ==> {
            &&& m.dist is None ==> serve_args(args) == Err::<
                (Seq<char>, u16, Seq<char>),
                ServeFault,
            >(ServeFault::MissingDist)
            &&& m.dist is Some && m.port is None ==> serve_args(args) == Err::<
                (Seq<char>, u16, Seq<char>),
                ServeFault,
            >(ServeFault::MissingPort)
            &&& m.dist is Some && m.port is Some ==> serve_args(args) == Ok::<
                (Seq<char>, u16, Seq<char>),
                ServeFault,
            >((m.dist->Some_0, m.port->Some_0, m.example))
        },
{
}

/// A text holds another exactly if it is something, the other and something.
pub proof fn law_texts_are_found_wherever_they_stand(
    before: Seq<char>,
    needle: Seq<char>,
    after: Seq<char>,
    hay: Seq<char>,
)
    ensures
        holds_text(before + needle + after, needle),
        holds_text(hay, needle) ==> exists|a: Seq<char>, b: Seq<char>| hay == #[trigger] (a + needle
            + b),
{
    let whole = before + needle + after;
    assert(whole.subrange(before.len() as int, (before.len() + needle.len()) as int) =~= needle);
    assert(stands_at(whole, needle, before.len() as int));
    if holds_text(hay, needle) {
        let i = choose|i: int| stands_at(hay, needle, i);
        let a = hay.take(i);
        let b = hay.skip(i + needle.len());
        assert(hay =~= a + needle + b);
    }
}

} // verus!
