//! Commands for the device's shell: quoting, identities and host names.

use vstd::prelude::*;
use vstd::string::*;
use crate::messages::ExecIdentity;
use crate::text;

verus! {

/// The characters of a quoted argument, between the quotes: a quote closes, adds an escaped
/// quote and opens again.
pub open spec fn quoted_body(s: Seq<char>) -> Seq<char>
    decreases s.len(),
{
    if s.len() == 0 {
        Seq::empty()
    } else {
        quoted_body(s.drop_last()) + if s.last() == '\'' {
            seq!['\'', '\\', '\'', '\'']
        } else {
            seq![s.last()]
        }
    }
}

/// An argument in single quotes.
pub open spec fn quoted(s: Seq<char>) -> Seq<char> {
    seq!['\''] + quoted_body(s) + seq!['\'']
}

/// An argument in single quotes.
pub fn shell_quote(value: &str) -> (r: String)
    ensures
        r@ == quoted(value@),
{
    let chars = text::chars_of(value);
    let mut out = String::new();
    out.push('\'');
    let mut i: usize = 0;
    assert(chars@.take(0) =~= Seq::<char>::empty());
    assert(out@ =~= seq!['\''] + quoted_body(chars@.take(0)));
    while i < chars.len()
        invariant
            i <= chars@.len(),
            out@ == seq!['\''] + quoted_body(chars@.take(i as int)),
        decreases chars@.len() - i,
    {
        let ghost before = out@;
        if chars[i] == '\'' {
            out.push('\'');
            out.push('\\');
            out.push('\'');
            out.push('\'');
        } else {
            out.push(chars[i]);
        }
        i += 1;
        proof {
            let head = chars@.take(i as int);
            assert(head.drop_last() =~= chars@.take(i - 1));
            assert(out@ =~= seq!['\''] + quoted_body(head));
        }
    }
    assert(chars@.take(i as int) =~= chars@);
    out.push('\'');
    assert(out@ =~= quoted(value@));
    out
}

/// How a shell reads a line of words: `quoted` inside single quotes, `word` the word that has
/// begun, `words` those before it. Blanks separate words, a backslash outside quotes takes the
/// next character as it is. `None` for a line that ends inside quotes or after a backslash.
pub open spec fn shell_words(
    s: Seq<char>,
    quoted: bool,
    word: Option<Seq<char>>,
    words: Seq<Seq<char>>,
) -> Option<Seq<Seq<char>>>
    decreases s.len(),
{
    let begun = match word {
        Some(w) => w,
        None => Seq::empty(),
    };
    let ended = match word {
        Some(w) => words.push(w),
        None => words,
    };
    if s.len() == 0 {
        if quoted {
            None
        } else {
            Some(ended)
        }
    } else {
        let c = s[0];
        let rest = s.drop_first();
        if quoted {
            if c == '\'' {
                shell_words(rest, false, Some(begun), words)
            } else {
                shell_words(rest, true, Some(begun.push(c)), words)
            }
        } else if c == '\'' {
            shell_words(rest, true, Some(begun), words)
        } else if c == '\\' {
            if rest.len() == 0 {
                None
            } else {
                shell_words(rest.drop_first(), false, Some(begun.push(rest[0])), words)
            }
        } else if c == ' ' {
            shell_words(rest, false, None, ended)
        } else {
            shell_words(rest, false, Some(begun.push(c)), words)
        }
    }
}

proof fn lemma_body_is_read(v: Seq<char>, t: Seq<char>, words: Seq<Seq<char>>)
    ensures
        shell_words(quoted_body(v) + t, true, Some(Seq::empty()), words) == shell_words(
            t,
            true,
            Some(v),
            words,
        ),
    decreases v.len(),
{
    if v.len() == 0 {
        assert(quoted_body(v) + t =~= t);
        assert(v =~= Seq::<char>::empty());
    } else {
        let init = v.drop_last();
        let c = v.last();
        assert(init.push(c) =~= v);
        if c == '\'' {
            let e = seq!['\'', '\\', '\'', '\''];
            assert(quoted_body(v) + t =~= quoted_body(init) + (e + t));
            lemma_body_is_read(init, e + t, words);
            let s0 = e + t;
            let s1 = seq!['\\', '\'', '\''] + t;
            let s3 = seq!['\''] + t;
            assert(s0.drop_first() =~= s1);
            assert(s1.drop_first().drop_first() =~= s3);
            assert(s3.drop_first() =~= t);
            assert(shell_words(s0, true, Some(init), words) == shell_words(
                s1,
                false,
                Some(init),
                words,
            ));
            assert(s1.drop_first()[0] == '\'');
            assert(shell_words(s1, false, Some(init), words) == shell_words(
                s3,
                false,
                Some(init.push(c)),
                words,
            ));
            assert(shell_words(s3, false, Some(init.push(c)), words) == shell_words(
                t,
                true,
                Some(init.push(c)),
                words,
            ));
        } else {
            let s0 = seq![c] + t;
            assert(quoted_body(v) + t =~= quoted_body(init) + s0);
            lemma_body_is_read(init, s0, words);
            assert(s0.drop_first() =~= t);
        }
    }
}

proof fn lemma_quoted_is_read(v: Seq<char>, t: Seq<char>, words: Seq<Seq<char>>)
    ensures
        shell_words(quoted(v) + t, false, None, words) == shell_words(t, false, Some(v), words),
{
    let tail = seq!['\''] + t;
    let s = quoted(v) + t;
    assert(s.drop_first() =~= quoted_body(v) + tail);
    assert(s[0] == '\'');
    lemma_body_is_read(v, tail, words);
    assert(tail.drop_first() =~= t);
}

/// A shell reads a quoted argument as one word, exactly the argument.
pub proof fn lemma_quote_preserves_argument(v: Seq<char>)
    ensures
        shell_words(quoted(v), false, None, Seq::empty()) == Some(seq![v]),
{
    lemma_quoted_is_read(v, Seq::empty(), Seq::empty());
    assert(quoted(v) + Seq::<char>::empty() =~= quoted(v));
    assert(Seq::<Seq<char>>::empty().push(v) =~= seq![v]);
}

/// The views of a list of strings.
pub open spec fn views(args: Seq<String>) -> Seq<Seq<char>> {
    args.map_values(|s: String| s@)
}

/// Arguments, each quoted and behind a blank.
pub open spec fn quoted_args(args: Seq<Seq<char>>) -> Seq<char>
    decreases args.len(),
{
    if args.len() == 0 {
        Seq::empty()
    } else {
        quoted_args(args.drop_last()) + seq![' '] + quoted(args.last())
    }
}

/// The line that has a shell run a program in its place.
pub open spec fn exec_script(program: Seq<char>, args: Seq<Seq<char>>) -> Seq<char> {
    "exec "@ + quoted(program) + quoted_args(args)
}

proof fn lemma_args_are_read(
    args: Seq<Seq<char>>,
    t: Seq<char>,
    word: Seq<char>,
    words: Seq<Seq<char>>,
)
    ensures
        shell_words(quoted_args(args) + t, false, Some(word), words) == shell_words(
            t,
            false,
            Some((seq![word] + args).last()),
            words + (seq![word] + args).drop_last(),
        ),
    decreases args.len(),
{
    let all = seq![word] + args;
    if args.len() == 0 {
        assert(quoted_args(args) + t =~= t);
        assert(words + all.drop_last() =~= words);
    } else {
        let init = args.drop_last();
        let last = args.last();
        let rest = quoted(last) + t;
        let tail = seq![' '] + rest;
        assert(quoted_args(args) + t =~= quoted_args(init) + tail);
        lemma_args_are_read(init, tail, word, words);
        let before = seq![word] + init;
        assert(tail.drop_first() =~= rest);
        lemma_quoted_is_read(last, t, (words + before.drop_last()).push(before.last()));
        assert((words + before.drop_last()).push(before.last()) =~= words + all.drop_last());
    }
}

/// A shell reads the line as `exec`, the program and exactly its arguments.
pub proof fn lemma_script_preserves_arguments(program: Seq<char>, args: Seq<Seq<char>>)
    ensures
        shell_words(exec_script(program, args), false, None, Seq::empty()) == Some(
            seq!["exec"@, program] + args,
        ),
{
    reveal_strlit("exec ");
    reveal_strlit("exec");
    let none = Seq::<Seq<char>>::empty();
    let tail = quoted(program) + quoted_args(args);
    let s = exec_script(program, args);
    assert(s =~= seq!['e', 'x', 'e', 'c', ' '] + tail);
    let e0 = Seq::<char>::empty();
    let s1 = seq!['x', 'e', 'c', ' '] + tail;
    let s2 = seq!['e', 'c', ' '] + tail;
    let s3 = seq!['c', ' '] + tail;
    let s4 = seq![' '] + tail;
    assert(s.drop_first() =~= s1);
    assert(s1.drop_first() =~= s2);
    assert(s2.drop_first() =~= s3);
    assert(s3.drop_first() =~= s4);
    assert(s4.drop_first() =~= tail);
    let w = e0.push('e').push('x').push('e').push('c');
    assert(w =~= "exec"@);
    assert(shell_words(s, false, None, none) == shell_words(s1, false, Some(e0.push('e')), none));
    assert(shell_words(s1, false, Some(e0.push('e')), none) == shell_words(
        s2,
        false,
        Some(e0.push('e').push('x')),
        none,
    ));
    assert(shell_words(s2, false, Some(e0.push('e').push('x')), none) == shell_words(
        s3,
        false,
        Some(e0.push('e').push('x').push('e')),
        none,
    ));
    assert(shell_words(s3, false, Some(e0.push('e').push('x').push('e')), none) == shell_words(
        s4,
        false,
        Some(w),
        none,
    ));
    assert(shell_words(s4, false, Some(w), none) == shell_words(tail, false, None, none.push(w)));
    lemma_quoted_is_read(program, quoted_args(args), none.push(w));
    lemma_args_are_read(args, e0, program, none.push(w));
    assert(quoted_args(args) + e0 =~= quoted_args(args));
    let all = seq![program] + args;
    assert((none.push(w) + all.drop_last()).push(all.last()) =~= seq!["exec"@, program] + args);
}

/// A program and its arguments.
#[derive(Debug)]
pub struct CommandLine {
    pub program: String,
    pub args: Vec<String>,
}

/// The groups that a command with the shell's identity belongs to.
pub const SHELL_GROUPS: [u32; 15] = [
    1004, 1007, 1011, 1015, 1028, 1078, 1079, 2000, 3001, 3002, 3003, 3006, 3009, 3011, 3012,
];

/// For each group an option and its number.
pub open spec fn group_args(groups: Seq<u32>) -> Seq<Seq<char>>
    decreases groups.len(),
{
    if groups.len() == 0 {
        Seq::empty()
    } else {
        group_args(groups.drop_last()) + seq!["-G"@, text::decimal(groups.last() as nat)]
    }
}

/// The arguments that make `su` run a line as the shell user.
pub open spec fn su_args(script: Seq<char>) -> Seq<Seq<char>> {
    seq!["-p"@, "-Z"@, "u:r:shell:s0"@, "-g"@, "2000"@] + group_args(SHELL_GROUPS@) + seq![
        "--ksu-no-new-privs"@,
        "2000"@,
        "-c"@,
        script,
    ]
}

/// Copies a list of strings.
pub fn copy_args(args: &[String]) -> (r: Vec<String>)
    ensures
        views(r@) == views(args@),
{
    let mut out: Vec<String> = Vec::new();
    let mut i: usize = 0;
    while i < args.len()
        invariant
            i <= args@.len(),
            views(out@) == views(args@).take(i as int),
        decreases args@.len() - i,
    {
        push_arg(&mut out, args[i].as_str());
        i += 1;
        assert(views(out@) =~= views(args@).take(i as int));
    }
    assert(views(args@).take(i as int) =~= views(args@));
    out
}

fn push_arg(out: &mut Vec<String>, arg: &str)
    ensures
        views(final(out)@) == views(old(out)@).push(arg@),
{
    out.push(String::from_str(arg));
    assert(views(out@) =~= views(old(out)@).push(arg@));
}

fn exec_line(program: &str, args: &[String]) -> (r: String)
    ensures
        r@ == exec_script(program@, views(args@)),
{
    let mut out = text::cat2("exec ", shell_quote(program).as_str());
    let mut i: usize = 0;
    assert(views(args@).take(0) =~= Seq::<Seq<char>>::empty());
    assert(out@ =~= "exec "@ + quoted(program@) + quoted_args(views(args@).take(0)));
    while i < args.len()
        invariant
            i <= args@.len(),
            out@ == "exec "@ + quoted(program@) + quoted_args(views(args@).take(i as int)),
        decreases args@.len() - i,
    {
        let ghost before = out@;
        out.push(' ');
        out.append(shell_quote(args[i].as_str()).as_str());
        i += 1;
        proof {
            let head = views(args@).take(i as int);
            assert(head.drop_last() =~= views(args@).take(i - 1));
            assert(head.last() == args@[i - 1]@);
            assert(out@ =~= "exec "@ + quoted(program@) + quoted_args(head));
        }
    }
    assert(views(args@).take(i as int) =~= views(args@));
    out
}

/// The program and the arguments that start a program with an identity.
pub open spec fn started(
    program: Seq<char>,
    args: Seq<Seq<char>>,
    identity: ExecIdentity,
    android: bool,
) -> (Seq<char>, Seq<Seq<char>>) {
    if android && identity == ExecIdentity::Shell {
        ("/system/bin/su"@, su_args(exec_script(program, args)))
    } else {
        (program, args)
    }
}

/// How a program is started: as it is, or on an Android device with the shell's identity
/// through `su`.
pub fn command_for_identity(
    program: &str,
    args: &[String],
    identity: ExecIdentity,
    android: bool,
) -> (r: CommandLine)
    ensures
        (r.program@, views(r.args@)) == started(program@, views(args@), identity, android),
{
    if android && identity == ExecIdentity::Shell {
        let mut out: Vec<String> = Vec::new();
        assert(views(out@) =~= Seq::<Seq<char>>::empty());
        push_arg(&mut out, "-p");
        push_arg(&mut out, "-Z");
        push_arg(&mut out, "u:r:shell:s0");
        push_arg(&mut out, "-g");
        push_arg(&mut out, "2000");
        let ghost head = seq!["-p"@, "-Z"@, "u:r:shell:s0"@, "-g"@, "2000"@];
        assert(views(out@) =~= head);
        let mut i: usize = 0;
        assert(SHELL_GROUPS@.take(0) =~= Seq::<u32>::empty());
        assert(views(out@) =~= head + group_args(SHELL_GROUPS@.take(0)));
        while i < 15
            invariant
                i <= 15,
                SHELL_GROUPS@.len() == 15,
                views(out@) == head + group_args(SHELL_GROUPS@.take(i as int)),
            decreases 15 - i,
        {
            push_arg(&mut out, "-G");
            let group: u32 = SHELL_GROUPS[i];
            push_arg(&mut out, text::decimal_string(group as u64).as_str());
            i += 1;
            proof {
                let taken = SHELL_GROUPS@.take(i as int);
                assert(taken.drop_last() =~= SHELL_GROUPS@.take(i - 1));
                assert(taken.last() == group);
                assert(views(out@) =~= head + group_args(taken));
            }
        }
        assert(SHELL_GROUPS@.take(15) =~= SHELL_GROUPS@);
        push_arg(&mut out, "--ksu-no-new-privs");
        push_arg(&mut out, "2000");
        push_arg(&mut out, "-c");
        push_arg(&mut out, exec_line(program, args).as_str());
        assert(views(out@) =~= su_args(exec_script(program@, views(args@))));
        return CommandLine { program: String::from_str("/system/bin/su"), args: out };
    }
    CommandLine { program: String::from_str(program), args: copy_args(args) }
}

/// The arguments with which `sh` runs a script about one file.
pub open spec fn file_script(script: Seq<char>, path: Seq<char>) -> Seq<Seq<char>> {
    seq!["-c"@, script, "sidewire-file"@, path]
}

/// A shell script about one file, whose path is the script's first argument.
pub fn identity_command(identity: ExecIdentity, script: &str, path: &str, android: bool) -> (r:
    CommandLine)
    ensures
        (r.program@, views(r.args@)) == started(
            "/system/bin/sh"@,
            file_script(script@, path@),
            identity,
            android,
        ),
{
    let mut args: Vec<String> = Vec::new();
    assert(views(args@) =~= Seq::<Seq<char>>::empty());
    push_arg(&mut args, "-c");
    push_arg(&mut args, script);
    push_arg(&mut args, "sidewire-file");
    push_arg(&mut args, path);
    assert(views(args@) =~= seq!["-c"@, script@, "sidewire-file"@, path@]);
    command_for_identity("/system/bin/sh", args.as_slice(), identity, android)
}

/// A character that a host name in a prompt may have.
pub open spec fn is_hostname_char(c: char) -> bool {
    ||| '0' <= c <= '9'
    ||| 'a' <= c <= 'z'
    ||| 'A' <= c <= 'Z'
    ||| c == '.'
    ||| c == '_'
    ||| c == '-'
}

/// The characters of a text that a host name may have.
pub open spec fn hostname_chars(s: Seq<char>) -> Seq<char>
    decreases s.len(),
{
    if s.len() == 0 {
        Seq::empty()
    } else if is_hostname_char(s.last()) {
        hostname_chars(s.drop_last()).push(s.last())
    } else {
        hostname_chars(s.drop_last())
    }
}

/// The host name that a text makes: what is left without unsafe characters, if anything is.
pub open spec fn sanitized(s: Seq<char>) -> Option<Seq<char>> {
    if hostname_chars(text::trim(s)).len() > 0 {
        Some(hostname_chars(text::trim(s)))
    } else {
        None
    }
}

/// The host name that a text makes.
pub fn sanitize_shell_hostname(value: &str) -> (r: Option<String>)
    ensures
        match r {
            Some(name) => sanitized(value@) == Some(name@),
            None => sanitized(value@) is None,
        },
{
    let all = text::chars_of(value);
    let chars = text::trimmed(all.as_slice());
    let mut out: Vec<char> = Vec::new();
    let mut i: usize = 0;
    assert(chars@.take(0) =~= Seq::<char>::empty());
    while i < chars.len()
        invariant
            i <= chars@.len(),
            out@ == hostname_chars(chars@.take(i as int)),
        decreases chars@.len() - i,
    {
        let c = chars[i];
        proof {
            let head = chars@.take(i + 1);
            assert(head.drop_last() =~= chars@.take(i as int));
        }
        if ('0' <= c && c <= '9') || ('a' <= c && c <= 'z') || ('A' <= c && c <= 'Z') || c == '.'
            || c == '_' || c == '-' {
            out.push(c);
        }
        i += 1;
    }
    assert(chars@.take(i as int) =~= chars@);
    if out.len() == 0 {
        None
    } else {
        Some(text::string_of(out.as_slice()))
    }
}

/// A host name that was made from a text holds nothing but safe characters.
pub proof fn lemma_hostname_is_safe(s: Seq<char>, i: int)
    requires
        0 <= i < hostname_chars(s).len(),
    ensures
        is_hostname_char(hostname_chars(s)[i]),
    decreases s.len(),
{
    if is_hostname_char(s.last()) {
        if i < hostname_chars(s.drop_last()).len() {
            lemma_hostname_is_safe(s.drop_last(), i);
        }
    } else {
        lemma_hostname_is_safe(s.drop_last(), i);
    }
}

/// The bytes before the first zero.
pub open spec fn until_zero(b: Seq<u8>) -> Seq<u8>
    decreases b.len(),
{
    if b.len() == 0 || b[0] == 0 {
        Seq::empty()
    } else {
        seq![b[0]] + until_zero(b.drop_first())
    }
}

fn zero_ended(b: &[u8]) -> (r: Vec<u8>)
    ensures
        r@ == until_zero(b@),
{
    let mut out: Vec<u8> = Vec::new();
    let mut i: usize = 0;
    assert(b@.skip(0) =~= b@);
    assert(out@ + until_zero(b@) =~= until_zero(b@));
    while i < b.len()
        invariant
            i <= b@.len(),
            until_zero(b@) == out@ + until_zero(b@.skip(i as int)),
        decreases b@.len() - i,
    {
        let ghost rest = b@.skip(i as int);
        if b[i] == 0 {
            assert(until_zero(rest) =~= Seq::<u8>::empty());
            assert(out@ =~= until_zero(b@));
            return out;
        }
        assert(rest.drop_first() =~= b@.skip(i + 1));
        let ghost before = out@;
        out.push(b[i]);
        i += 1;
        assert(out@ + until_zero(b@.skip(i as int)) =~= before + until_zero(rest));
    }
    assert(out@ =~= until_zero(b@));
    out
}

/// The host name of a device's shell: the device's name, else the kernel's host name unless that
/// is `localhost`, else the product's name, else `android`.
pub open spec fn prompt_hostname(
    device_name: Seq<char>,
    kernel: Option<Seq<u8>>,
    product: Option<Seq<u8>>,
) -> Seq<char> {
    let from_kernel = match kernel {
        Some(b) => {
            let name = text::lossy(until_zero(b));
            if text::same_ignoring_case(name, "localhost"@) {
                None
            } else {
                sanitized(name)
            }
        },
        None => None,
    };
    let from_product = match product {
        Some(b) => if b.len() > 0 {
            sanitized(text::lossy(b))
        } else {
            None
        },
        None => None,
    };
    if sanitized(device_name) is Some {
        sanitized(device_name)->0
    } else if from_kernel is Some {
        from_kernel->0
    } else if from_product is Some {
        from_product->0
    } else {
        "android"@
    }
}

/// The host name of a device's shell.
pub fn shell_hostname(device_name: &str, kernel: Option<&[u8]>, product: Option<&[u8]>) -> (r:
    String)
    ensures
        r@ == prompt_hostname(
            device_name@,
            match kernel {
                Some(b) => Some(b@),
                None => None,
            },
            match product {
                Some(b) => Some(b@),
                None => None,
            },
        ),
{
    match sanitize_shell_hostname(device_name) {
        Some(name) => {
            return name;
        },
        None => {},
    }
    match kernel {
        Some(b) => {
            let name = text::lossy_text(zero_ended(b).as_slice());
            if !text::equal_ignoring_case(name.as_str(), "localhost") {
                match sanitize_shell_hostname(name.as_str()) {
                    Some(hostname) => {
                        return hostname;
                    },
                    None => {},
                }
            }
        },
        None => {},
    }
    match product {
        Some(b) => {
            if b.len() > 0 {
                match sanitize_shell_hostname(text::lossy_text(b).as_str()) {
                    Some(hostname) => {
                        return hostname;
                    },
                    None => {},
                }
            }
        },
        None => {},
    }
    String::from_str("android")
}

/// A request to `su`, as it reads its own command line.
#[verifier::ext_equal]
pub struct SuRequest {
    /// Keep the environment.
    pub preserve: bool,
    /// The security context.
    pub context: Option<Seq<char>>,
    pub group: Option<Seq<char>>,
    /// The supplementary groups.
    pub groups: Seq<Seq<char>>,
    pub no_new_privs: bool,
    /// Root, where none is named.
    pub user: Option<Seq<char>>,
    /// The line that a shell runs.
    pub command: Option<Seq<char>>,
}

/// A request before anything of it is read.
pub open spec fn su_nothing() -> SuRequest {
    SuRequest {
        preserve: false,
        context: None,
        group: None,
        groups: Seq::empty(),
        no_new_privs: false,
        user: None,
        command: None,
    }
}

/// How `su` reads arguments: options, some of them with a value, and the user, who is the first
/// that is no option. `None` for a line that it refuses.
pub open spec fn su_reads(args: Seq<Seq<char>>, read: SuRequest) -> Option<SuRequest>
    decreases args.len(),
{
    if args.len() == 0 {
        Some(read)
    } else {
        let option = args[0];
        let rest = args.drop_first();
        if option == "-p"@ {
            su_reads(rest, SuRequest { preserve: true, ..read })
        } else if option == "--ksu-no-new-privs"@ {
            su_reads(rest, SuRequest { no_new_privs: true, ..read })
        } else if option == "-Z"@ || option == "-g"@ || option == "-G"@ || option == "-c"@ {
            if rest.len() == 0 {
                None
            } else {
                let value = rest[0];
                let more = rest.drop_first();
                if option == "-Z"@ {
                    su_reads(more, SuRequest { context: Some(value), ..read })
                } else if option == "-g"@ {
                    su_reads(more, SuRequest { group: Some(value), ..read })
                } else if option == "-G"@ {
                    su_reads(more, SuRequest { groups: read.groups.push(value), ..read })
                } else {
                    su_reads(more, SuRequest { command: Some(value), ..read })
                }
            }
        } else if option.len() > 0 && option[0] == '-' {
            None
        } else if read.user is None {
            su_reads(rest, SuRequest { user: Some(option), ..read })
        } else {
            None
        }
    }
}

proof fn lemma_su_options_differ()
    ensures
        "-p"@ != "-Z"@ && "-p"@ != "-g"@ && "-p"@ != "-G"@ && "-p"@ != "-c"@,
        "-Z"@ != "-g"@ && "-Z"@ != "-G"@ && "-Z"@ != "-c"@,
        "-g"@ != "-G"@ && "-g"@ != "-c"@ && "-G"@ != "-c"@,
        "--ksu-no-new-privs"@.len() == 18,
        "-p"@.len() == 2 && "-Z"@.len() == 2 && "-g"@.len() == 2 && "-G"@.len() == 2,
        "-c"@.len() == 2,
        "2000"@.len() == 4 && "2000"@[0] == '2',
{
    reveal_strlit("-p");
    reveal_strlit("-Z");
    reveal_strlit("-g");
    reveal_strlit("-G");
    reveal_strlit("-c");
    reveal_strlit("--ksu-no-new-privs");
    reveal_strlit("2000");
    assert("-p"@[1] == 'p' && "-Z"@[1] == 'Z' && "-g"@[1] == 'g' && "-G"@[1] == 'G' && "-c"@[1]
        == 'c');
}

proof fn lemma_su_reads_groups(groups: Seq<u32>, rest: Seq<Seq<char>>, read: SuRequest)
    ensures
        su_reads(group_args(groups) + rest, read) == su_reads(
            rest,
            SuRequest {
                groups: read.groups + groups.map_values(|g: u32| text::decimal(g as nat)),
                ..read
            },
        ),
    decreases groups.len(),
{
    let numbers = groups.map_values(|g: u32| text::decimal(g as nat));
    if groups.len() == 0 {
        assert(group_args(groups) + rest =~= rest);
        assert(read.groups + numbers =~= read.groups);
    } else {
        let init = groups.drop_last();
        let last = text::decimal(groups.last() as nat);
        let tail = seq!["-G"@, last] + rest;
        assert(group_args(groups) + rest =~= group_args(init) + tail);
        lemma_su_reads_groups(init, tail, read);
        lemma_su_options_differ();
        assert(tail.drop_first().drop_first() =~= rest);
        assert(tail.drop_first()[0] == last);
        let before = read.groups + init.map_values(|g: u32| text::decimal(g as nat));
        assert(before.push(last) =~= read.groups + numbers);
    }
}

/// `su` reads a command with the shell's identity as a request for the shell's user, its group,
/// its security context and its groups, without new privileges, and runs exactly the given line.
/// The user is the one that the group belongs to, and never root.
pub proof fn lemma_su_runs_as_shell(script: Seq<char>)
    ensures
        su_reads(su_args(script), su_nothing()) matches Some(request) && {
            &&& request.preserve
            &&& request.no_new_privs
            &&& request.context == Some("u:r:shell:s0"@)
            &&& request.command == Some(script)
            &&& request.user == Some("2000"@)
            &&& request.user == request.group
            &&& text::parse_unsigned(request.user->0, u32::MAX as nat) == Some(2000nat)
            &&& request.groups.len() == SHELL_GROUPS@.len()
            &&& forall|i: int|
                0 <= i < request.groups.len() ==> text::parse_unsigned(
                    #[trigger] request.groups[i],
                    u32::MAX as nat,
                ) == Some(SHELL_GROUPS@[i] as nat)
        },
{
    lemma_su_options_differ();
    let start = su_nothing();
    let tail = seq!["--ksu-no-new-privs"@, "2000"@, "-c"@, script];
    let groups = group_args(SHELL_GROUPS@);
    let all = su_args(script);
    let a1 = seq!["-Z"@, "u:r:shell:s0"@, "-g"@, "2000"@] + (groups + tail);
    let a3 = seq!["-g"@, "2000"@] + (groups + tail);
    assert(all =~= seq!["-p"@, "-Z"@, "u:r:shell:s0"@, "-g"@, "2000"@] + (groups + tail));
    assert(all.drop_first() =~= a1);
    assert(a1.drop_first().drop_first() =~= a3);
    assert(a1.drop_first()[0] == "u:r:shell:s0"@);
    assert(a3.drop_first().drop_first() =~= groups + tail);
    assert(a3.drop_first()[0] == "2000"@);
    let r1 = SuRequest { preserve: true, ..start };
    let r2 = SuRequest { context: Some("u:r:shell:s0"@), ..r1 };
    let r3 = SuRequest { group: Some("2000"@), ..r2 };
    assert(su_reads(all, start) == su_reads(a1, r1));
    assert(su_reads(a1, r1) == su_reads(a3, r2));
    assert(su_reads(a3, r2) == su_reads(groups + tail, r3));
    lemma_su_reads_groups(SHELL_GROUPS@, tail, r3);
    let numbers = SHELL_GROUPS@.map_values(|g: u32| text::decimal(g as nat));
    let r4 = SuRequest { groups: r3.groups + numbers, ..r3 };
    assert(r3.groups + numbers =~= numbers);
    let t1 = seq!["2000"@, "-c"@, script];
    let t2 = seq!["-c"@, script];
    assert(tail.drop_first() =~= t1);
    assert(t1.drop_first() =~= t2);
    assert(t2.drop_first().drop_first() =~= Seq::<Seq<char>>::empty());
    assert(t2.drop_first()[0] == script);
    let r5 = SuRequest { no_new_privs: true, ..r4 };
    let r6 = SuRequest { user: Some("2000"@), ..r5 };
    let r7 = SuRequest { command: Some(script), ..r6 };
    assert(su_reads(tail, r4) == su_reads(t1, r5));
    assert(su_reads(t1, r5) == su_reads(t2, r6));
    assert(su_reads(t2, r6) == su_reads(Seq::empty(), r7));
    reveal_strlit("2000");
    assert("2000"@ =~= seq!['2', '0', '0', '0']);
    assert(text::digits_value("2000"@) == 2000) by {
        let d = "2000"@;
        assert(d.drop_last() =~= seq!['2', '0', '0']);
        assert(d.drop_last().drop_last() =~= seq!['2', '0']);
        assert(d.drop_last().drop_last().drop_last() =~= seq!['2']);
        assert(d.drop_last().drop_last().drop_last().drop_last() =~= Seq::<char>::empty());
        reveal_with_fuel(text::digits_value, 5);
    }
    assert forall|i: int| 0 <= i < numbers.len() implies text::parse_unsigned(
        #[trigger] numbers[i],
        u32::MAX as nat,
    ) == Some(SHELL_GROUPS@[i] as nat) by {
        text::lemma_decimal_round_trip(SHELL_GROUPS@[i] as nat, u32::MAX as nat);
    }
}

/// The shell's groups are in ascending order, the shell's own is among them, and none of them is
/// root's or the system's.
pub proof fn lemma_shell_groups_are_harmless()
    ensures
        forall|i: int, j: int|
            0 <= i < j < SHELL_GROUPS@.len() ==> #[trigger] SHELL_GROUPS@[i]
                < #[trigger] SHELL_GROUPS@[j],
        SHELL_GROUPS@.contains(2000),
        forall|i: int| 0 <= i < SHELL_GROUPS@.len() ==> #[trigger] SHELL_GROUPS@[i] > 1000,
        SHELL_GROUPS@ == seq![
            1004u32, 1007, 1011, 1015, 1028, 1078, 1079, 2000, 3001, 3002, 3003, 3006, 3009, 3011,
            3012,
        ],
{
    assert(SHELL_GROUPS@[7] == 2000);
}

/// What runs when a command line is started: the user it runs as, `None` for the user who
/// starts it, and its words. `su` hands its line to a shell.
pub open spec fn runs(program: Seq<char>, args: Seq<Seq<char>>) -> Option<
    (Option<Seq<char>>, Seq<Seq<char>>),
> {
    if program == "/system/bin/su"@ {
        match su_reads(args, su_nothing()) {
            None => None,
            Some(request) => match shell_words(request.command->0, false, None, Seq::empty()) {
                None => None,
                Some(words) => Some((request.user, words)),
            },
        }
    } else {
        Some((None, seq![program] + args))
    }
}

/// Whatever the identity, exactly the program with exactly its arguments runs: for root, and where
/// there are no identities, as it is; for the shell's identity as the shell's user, in the place
/// of the shell that `su` starts.
pub proof fn lemma_command_runs_as_asked(
    program: Seq<char>,
    args: Seq<Seq<char>>,
    identity: ExecIdentity,
    android: bool,
)
    requires
        program != "/system/bin/su"@,
    ensures
        ({
            let (file, given) = started(program, args, identity, android);
            let words = seq![program] + args;
            if android && identity != ExecIdentity::Root {
                runs(file, given) == Some((Some("2000"@), seq!["exec"@] + words))
            } else {
                runs(file, given) == Some((None::<Seq<char>>, words))
            }
        }),
{
    if android && identity == ExecIdentity::Shell {
        let script = exec_script(program, args);
        lemma_su_runs_as_shell(script);
        lemma_script_preserves_arguments(program, args);
        assert(seq!["exec"@, program] + args =~= seq!["exec"@] + (seq![program] + args));
    }
}

/// Whether a character is safe in a host name: a letter or digit of ASCII, a dot, an underscore or
/// a dash.
pub open spec fn is_safe(c: char) -> bool {
    'a' <= c <= 'z' || 'A' <= c <= 'Z' || '0' <= c <= '9' || c == '.' || c == '_' || c == '-'
}

pub open spec fn all_safe(s: Seq<char>) -> bool {
    forall|i: int| 0 <= i < s.len() ==> is_safe(#[trigger] s[i])
}

proof fn lemma_safe_chars_are_kept(s: Seq<char>)
    requires
        all_safe(s),
    ensures
        hostname_chars(s) == s,
    decreases s.len(),
{
    if s.len() > 0 {
        assert(is_safe(s[s.len() - 1]));
        lemma_safe_chars_are_kept(s.drop_last());
        assert(s.drop_last().push(s.last()) =~= s);
    }
}

proof fn lemma_kept_chars_are_safe(s: Seq<char>)
    ensures
        all_safe(hostname_chars(s)),
    decreases s.len(),
{
    if s.len() > 0 {
        lemma_kept_chars_are_safe(s.drop_last());
    }
}

/// A name that is safe already is used as it is, with white space around it or without. Whatever
/// the names are, the prompt shows a name that is safe and not empty, and it is the device's own
/// wherever that leaves anything.
pub proof fn lemma_prompt_names_the_device(
    name: Seq<char>,
    device_name: Seq<char>,
    kernel: Option<Seq<u8>>,
    product: Option<Seq<u8>>,
)
    requires
        name.len() > 0,
        all_safe(name),
    ensures
        sanitized(name) == Some(name),
        prompt_hostname(name, kernel, product) == name,
        prompt_hostname(device_name, kernel, product).len() > 0,
        all_safe(prompt_hostname(device_name, kernel, product)),
        sanitized(device_name) is Some ==> prompt_hostname(device_name, kernel, product)
            == sanitized(device_name)->0,
        sanitized(device_name) is None && product is None ==> prompt_hostname(
            device_name,
            None,
            product,
        ) == "android"@,
{
    assert(is_safe(name[0]) && is_safe(name[name.len() - 1]));
    text::lemma_trim_nothing(name);
    lemma_safe_chars_are_kept(name);
    reveal_strlit("android");
    lemma_kept_chars_are_safe(text::trim(device_name));
    if let Some(b) = kernel {
        lemma_kept_chars_are_safe(text::trim(text::lossy(until_zero(b))));
    }
    if let Some(b) = product {
        lemma_kept_chars_are_safe(text::trim(text::lossy(b)));
    }
}

/// Without a name of its own, a device is called by the host name of its kernel, unless that is
/// the one that every machine has, in any case of its letters; then by its product.
pub proof fn lemma_localhost_is_no_name(
    device_name: Seq<char>,
    kernel: Seq<u8>,
    product: Seq<u8>,
)
    requires
        sanitized(device_name) is None,
        product.len() > 0,
        sanitized(text::lossy(product)) is Some,
    ensures
        text::lowered(text::lossy(until_zero(kernel))) == text::lowered("localhost"@)
            ==> prompt_hostname(device_name, Some(kernel), Some(product)) == sanitized(
            text::lossy(product),
        )->0,
        text::lowered(text::lossy(until_zero(kernel))) != text::lowered("localhost"@) && sanitized(
            text::lossy(until_zero(kernel)),
        ) is Some ==> prompt_hostname(device_name, Some(kernel), Some(product)) == sanitized(
            text::lossy(until_zero(kernel)),
        )->0,
        prompt_hostname(device_name, None, Some(product)) == sanitized(text::lossy(product))->0,
{
}

} // verus!
