//! What a container runs: command and arguments with their variables, and shell text
//! where they have to be wrapped in a shell.

use crate::api;
use crate::api::Container;
use crate::expand;
use crate::text;
use vstd::prelude::*;
use vstd::string::*;

verus! {

/// `c` means something to a shell.
pub open spec fn is_shell_meta(c: char) -> bool {
    ||| c == ' '
    ||| c == '\''
    ||| c == '"'
    ||| c == '\\'
    ||| c == ';'
    ||| c == '&'
    ||| c == '|'
    ||| c == '('
    ||| c == ')'
    ||| c == '{'
    ||| c == '}'
    ||| c == '<'
    ||| c == '>'
    ||| c == '!'
    ||| c == '?'
    ||| c == '*'
    ||| c == '['
    ||| c == ']'
    ||| c == '#'
    ||| c == '~'
    ||| c == '`'
    ||| c == '\n'
    ||| c == '\t'
}

/// `s` holds a character that means something to a shell.
pub open spec fn is_risky(s: Seq<char>) -> bool {
    exists|i: int| 0 <= i < s.len() && is_shell_meta(#[trigger] s[i])
}

/// `s` as one word of a shell command. Double quotes leave variables alive, single
/// quotes take everything as it is.
pub open spec fn shell_word(s: Seq<char>) -> Seq<char> {
    if s.len() == 0 {
        "''"@
    } else if s.contains('$') {
        "\""@ + text::replaced(text::replaced(s, '\\', "\\\\"@), '"', "\\\""@) + "\""@
    } else if is_risky(s) {
        "'"@ + text::replaced(s, '\'', "'\\''"@) + "'"@
    } else {
        s
    }
}

/// The words of a shell command, with spaces between them.
pub open spec fn shell_text(args: Seq<Seq<char>>) -> Seq<char> {
    text::join(args.map_values(|s: Seq<char>| shell_word(s)), " "@)
}

/// Whether a text holds a character that means something to a shell.
pub fn needs_shell_quoting(s: &str) -> (r: bool)
    ensures
        r == is_risky(s@),
{
    let v = text::chars_of(s);
    let mut i: usize = 0;
    while i < v.len()
        invariant
            i <= v@.len(),
            v@ == s@,
            forall|j: int| 0 <= j < i ==> !is_shell_meta(#[trigger] v@[j]),
        decreases v@.len() - i,
    {
        let c = v[i];
        if c == ' ' || c == '\'' || c == '"' || c == '\\' || c == ';' || c == '&' || c == '|' || c
            == '(' || c == ')' || c == '{' || c == '}' || c == '<' || c == '>' || c == '!' || c
            == '?' || c == '*' || c == '[' || c == ']' || c == '#' || c == '~' || c == '`' || c
            == '\n' || c == '\t' {
            assert(is_shell_meta(s@[i as int]));
            return true;
        }
        i += 1;
    }
    false
}

/// One argument as a word of a shell command.
fn quote(a: &str) -> (r: String)
    ensures
        r@ == shell_word(a@),
{
    if a.is_empty() {
        String::from_str("''")
    } else if text::contains_char(a, '$') {
        let x = text::replace_char(a, '\\', "\\\\");
        let y = text::replace_char(x.as_str(), '"', "\\\"");
        text::cat3("\"", y.as_str(), "\"")
    } else if needs_shell_quoting(a) {
        let x = text::replace_char(a, '\'', "'\\''");
        text::cat3("'", x.as_str(), "'")
    } else {
        String::from_str(a)
    }
}

/// Joins arguments to the text of a shell command.
pub fn shell_join(args: &[String]) -> (r: String)
    ensures
        r@ == shell_text(text::texts(args@)),
{
    let mut words: Vec<String> = Vec::new();
    let mut i: usize = 0;
    while i < args.len()
        invariant
            i <= args@.len(),
            words@.len() == i,
            forall|j: int| 0 <= j < i ==> (#[trigger] words@[j])@ == shell_word(args@[j]@),
        decreases args@.len() - i,
    {
        words.push(quote(args[i].as_str()));
        i += 1;
    }
    assert(text::texts(words@) =~= text::texts(args@).map_values(|s: Seq<char>| shell_word(s)));
    text::join_with(&words, " ")
}

/// Arguments that mean nothing to a shell stay as they are.
pub proof fn law_plain_words_stay(s: Seq<char>)
    requires
        s.len() > 0,
        !s.contains('$'),
        !is_risky(s),
    ensures
        shell_word(s) == s,
{
}

/// How a shell takes the next character.
pub ghost enum Quoting {
    Bare,
    Single,
    Double,
}

/// A word with one more piece.
pub open spec fn grown(word: Option<Seq<char>>, piece: Seq<char>) -> Option<Seq<char>> {
    match word {
        Some(w) => Some(w + piece),
        None => Some(piece),
    }
}

/// The words `before` and those of `rest`, where these can be told.
pub open spec fn preceded(before: Seq<Seq<char>>, rest: Option<Seq<Seq<char>>>) -> Option<
    Seq<Seq<char>>,
> {
    match rest {
        Some(r) => Some(before + r),
        None => None,
    }
}

/// The words that a shell reads `s` as, without their quotes, when it is in the middle of
/// `word` and takes the next character as `q` says. `None` where a quote is left open, or
/// where something other than a word stands bare or an expansion stands in double quotes.
pub open spec fn words_from(s: Seq<char>, q: Quoting, word: Option<Seq<char>>) -> Option<
    Seq<Seq<char>>,
>
    decreases s.len(),
{
    if s.len() == 0 {
        if !(q is Bare) {
            None
        } else {
            match word {
                Some(w) => Some(seq![w]),
                None => Some(Seq::empty()),
            }
        }
    } else {
        let c = s[0];
        let rest = s.drop_first();
        match q {
            Quoting::Single => if c == '\'' {
                words_from(rest, Quoting::Bare, word)
            } else {
                words_from(rest, q, grown(word, seq![c]))
            },
            Quoting::Double => if c == '"' {
                words_from(rest, Quoting::Bare, word)
            } else if c == '$' || c == '`' {
                None
            } else if c == '\\' && rest.len() > 0 && (rest[0] == '$' || rest[0] == '`' || rest[0]
                == '"' || rest[0] == '\\') {
                words_from(rest.drop_first(), q, grown(word, seq![rest[0]]))
            } else if c == '\\' && rest.len() > 0 && rest[0] == '\n' {
                words_from(rest.drop_first(), q, word)
            } else {
                words_from(rest, q, grown(word, seq![c]))
            },
            Quoting::Bare => if c == ' ' || c == '\t' {
                preceded(
                    match word {
                        Some(w) => seq![w],
                        None => Seq::empty(),
                    },
                    words_from(rest, q, None),
                )
            } else if c == '\'' {
                words_from(rest, Quoting::Single, grown(word, Seq::empty()))
            } else if c == '"' {
                words_from(rest, Quoting::Double, grown(word, Seq::empty()))
            } else if c == '\\' {
                if rest.len() == 0 {
                    None
                } else if rest[0] == '\n' {
                    words_from(rest.drop_first(), q, word)
                } else {
                    words_from(rest.drop_first(), q, grown(word, seq![rest[0]]))
                }
            } else if c == '$' || is_shell_meta(c) {
                None
            } else {
                words_from(rest, q, grown(word, seq![c]))
            },
        }
    }
}

/// The words that a shell reads a command as, without their quotes.
pub open spec fn shell_words(s: Seq<char>) -> Option<Seq<Seq<char>>> {
    words_from(s, Quoting::Bare, None)
}

proof fn lemma_bare_word(s: Seq<char>, word: Option<Seq<char>>, rest: Seq<char>)
    requires
        s.len() > 0,
        !s.contains('$'),
        !is_risky(s),
    ensures
        words_from(s + rest, Quoting::Bare, word) == words_from(
            rest,
            Quoting::Bare,
            grown(word, s),
        ),
    decreases s.len(),
{
    let c = s[0];
    let t = s.drop_first();
    assert(!is_shell_meta(s[0]));
    assert(c != '$') by {
        if c == '$' {
            assert(s.contains('$'));
        }
    }
    assert((s + rest)[0] == c);
    assert((s + rest).drop_first() == t + rest);
    if t.len() > 0 {
        assert(!t.contains('$')) by {
            if t.contains('$') {
                let k = choose|k: int| 0 <= k < t.len() && t[k] == '$';
                assert(s[k + 1] == '$');
            }
        }
        assert(!is_risky(t)) by {
            if is_risky(t) {
                let k = choose|k: int| 0 <= k < t.len() && is_shell_meta(#[trigger] t[k]);
                assert(is_shell_meta(s[k + 1]));
            }
        }
        lemma_bare_word(t, grown(word, seq![c]), rest);
        assert(grown(grown(word, seq![c]), t)->0 =~= grown(word, s)->0);
    } else {
        assert(t + rest == rest);
        assert(seq![c] == s);
    }
}

proof fn lemma_single_quoted(s: Seq<char>, word: Seq<char>, rest: Seq<char>)
    ensures
        words_from(
            text::replaced(s, '\'', "'\\''"@) + rest,
            Quoting::Single,
            Some(word),
        ) == words_from(rest, Quoting::Single, Some(word + s)),
    decreases s.len(),
{
    let mark = "'\\''"@;
    if s.len() == 0 {
        assert(text::replaced(s, '\'', mark) + rest == rest);
        assert(word + s == word);
    } else {
        let t = s.drop_last();
        let c = s.last();
        let piece = if c == '\'' {
            mark
        } else {
            seq![c]
        };
        let after = piece + rest;
        assert(text::replaced(s, '\'', mark) + rest == text::replaced(t, '\'', mark) + after);
        lemma_single_quoted(t, word, after);
        assert((word + t) + seq![c] == word + s);
        if c == '\'' {
            reveal_strlit("'\\''");
            let a1 = after.drop_first();
            let a2 = a1.drop_first();
            let a3 = a2.drop_first();
            assert(after[0] == '\'' && a1[0] == '\\' && a2[0] == '\'' && a3[0] == '\'');
            assert(a3.drop_first() == rest);
            assert(words_from(after, Quoting::Single, Some(word + t)) == words_from(
                a1,
                Quoting::Bare,
                Some(word + t),
            ));
            assert(words_from(a1, Quoting::Bare, Some(word + t)) == words_from(
                a3,
                Quoting::Bare,
                Some((word + t) + seq![c]),
            ));
            assert((word + s) + Seq::<char>::empty() == word + s);
            assert(words_from(a3, Quoting::Bare, Some(word + s)) == words_from(
                rest,
                Quoting::Single,
                Some(word + s),
            ));
        } else {
            assert(after[0] == c);
            assert(after.drop_first() == rest);
        }
    }
}

/// One argument, quoted as it is in a command, is read as that argument.
proof fn lemma_quoted_word(s: Seq<char>, rest: Seq<char>)
    requires
        !s.contains('$'),
    ensures
        words_from(shell_word(s) + rest, Quoting::Bare, None) == words_from(
            rest,
            Quoting::Bare,
            Some(s),
        ),
{
    let w = shell_word(s) + rest;
    if s.len() == 0 {
        reveal_strlit("''");
        assert(w[0] == '\'' && w.drop_first()[0] == '\'');
        assert(w.drop_first().drop_first() == rest);
        assert(s == Seq::<char>::empty());
        assert(words_from(w, Quoting::Bare, None) == words_from(
            w.drop_first(),
            Quoting::Single,
            Some(s),
        ));
        assert(words_from(w.drop_first(), Quoting::Single, Some(s)) == words_from(
            rest,
            Quoting::Bare,
            Some(s),
        ));
    } else if is_risky(s) {
        reveal_strlit("'");
        let body = text::replaced(s, '\'', "'\\''"@);
        let tail = seq!['\''] + rest;
        assert(w[0] == '\'');
        assert(w.drop_first() == body + tail);
        lemma_single_quoted(s, Seq::empty(), tail);
        assert(Seq::<char>::empty() + s == s);
        assert(tail[0] == '\'');
        assert(tail.drop_first() == rest);
        assert(words_from(w, Quoting::Bare, None) == words_from(
            body + tail,
            Quoting::Single,
            Some(Seq::empty()),
        ));
        assert(words_from(tail, Quoting::Single, Some(s)) == words_from(
            rest,
            Quoting::Bare,
            Some(s),
        ));
    } else {
        lemma_bare_word(s, None, rest);
    }
}

proof fn lemma_joined_words(args: Seq<Seq<char>>, rest: Seq<char>)
    requires
        args.len() > 0,
        forall|i: int| 0 <= i < args.len() ==> !(#[trigger] args[i]).contains('$'),
    ensures
        words_from(shell_text(args) + rest, Quoting::Bare, None) == preceded(
            args.drop_last(),
            words_from(rest, Quoting::Bare, Some(args.last())),
        ),
    decreases args.len(),
{
    let quoted = args.map_values(|s: Seq<char>| shell_word(s));
    let last = args.last();
    assert(!args[args.len() - 1].contains('$'));
    lemma_quoted_word(last, rest);
    let found = words_from(rest, Quoting::Bare, Some(last));
    if args.len() == 1 {
        assert(quoted[0] == shell_word(last));
        if let Some(r) = found {
            assert(args.drop_last() + r == r);
        }
    } else {
        let before = args.drop_last();
        let tail = seq![' '] + (shell_word(last) + rest);
        reveal_strlit(" ");
        assert(quoted.drop_last() == before.map_values(|s: Seq<char>| shell_word(s)));
        assert(quoted.last() == shell_word(last));
        assert(" "@ == seq![' ']);
        assert(shell_text(args) + rest == shell_text(before) + tail);
        assert forall|i: int| 0 <= i < before.len() implies !(#[trigger] before[i]).contains('$') by {
            assert(before[i] == args[i]);
        }
        lemma_joined_words(before, tail);
        assert(tail[0] == ' ');
        assert(tail.drop_first() == shell_word(last) + rest);
        if let Some(r) = found {
            assert(before.drop_last() + (seq![before.last()] + r) == before + r);
        }
    }
}

/// A shell reads the text of a command, made from arguments without variables, as those
/// arguments, in order.
pub proof fn law_a_shell_reads_the_arguments_back(args: Seq<Seq<char>>)
    requires
        forall|i: int| 0 <= i < args.len() ==> !(#[trigger] args[i]).contains('$'),
    ensures
        shell_words(shell_text(args)) == Some(args),
{
    if args.len() == 0 {
        assert(args == Seq::<Seq<char>>::empty());
    } else {
        let rest = Seq::<char>::empty();
        lemma_joined_words(args, rest);
        assert(shell_text(args) + rest == shell_text(args));
        assert(args.drop_last() + seq![args.last()] == args);
    }
}

/// The text of a command is that of its first arguments and that of the others, with a
/// space between them.
pub proof fn law_commands_are_joined_piece_by_piece(a: Seq<Seq<char>>, b: Seq<Seq<char>>)
    requires
        a.len() > 0,
        b.len() > 0,
    ensures
        shell_text(a + b) == shell_text(a) + " "@ + shell_text(b),
    decreases b.len(),
{
    let f = |s: Seq<char>| shell_word(s);
    let all = (a + b).map_values(f);
    assert(all.drop_last() == (a + b.drop_last()).map_values(f));
    assert(all.last() == shell_word(b.last()));
    if b.len() == 1 {
        assert(a + b.drop_last() == a);
        assert(b.map_values(f)[0] == shell_word(b.last()));
    } else {
        law_commands_are_joined_piece_by_piece(a, b.drop_last());
        assert(b.map_values(f).drop_last() == b.drop_last().map_values(f));
        assert(shell_text(b) == shell_text(b.drop_last()) + " "@ + shell_word(b.last()));
        assert(shell_text(a + b) == shell_text(a) + " "@ + shell_text(b));
    }
}

/// Whether a container's command is wrapped so that it creates files for everybody: it
/// mounts an empty directory, and its image has a shell.
pub fn needs_umask_fix(has_emptydir_mount: bool, has_shell: bool) -> (r: bool)
    ensures
        r <==> has_emptydir_mount && has_shell,
{
    has_emptydir_mount && has_shell
}

/// `cmd` is a shell with a script.
pub open spec fn is_script(cmd: Seq<Seq<char>>) -> bool {
    cmd.len() == 3 && (cmd[0] == "sh"@ || cmd[0] == "/bin/sh"@) && cmd[1] == "-c"@
}

/// A shell that runs `line`.
pub open spec fn in_shell(line: Seq<char>) -> Seq<Seq<char>> {
    seq!["/bin/sh"@, "-c"@, line]
}

/// What a container runs: the entry point and the command, each where it does not stay
/// the image's.
pub struct CommandLine {
    pub entrypoint: Option<Vec<String>>,
    pub cmd: Option<Vec<String>>,
}

/// The characters of an optional list of texts.
pub open spec fn opt_texts(o: Option<Vec<String>>) -> Option<Seq<Seq<char>>> {
    match o {
        Some(v) => Some(text::texts(v@)),
        None => None,
    }
}

/// The words of `v` with their variables expanded.
pub open spec fn expanded(v: Seq<String>, env: Seq<(Seq<char>, Seq<char>)>) -> Seq<Seq<char>> {
    text::texts(v).map_values(|s: Seq<char>| expand::command_expansion(s, env))
}

/// The entry point of a container.
pub open spec fn entrypoint_of(
    c: Container,
    env: Seq<(Seq<char>, Seq<char>)>,
    fix: bool,
    image_entrypoint: Seq<String>,
    image_cmd: Seq<String>,
) -> Option<Seq<Seq<char>>> {
    match c.command {
        Some(command) => {
            let cmd = expanded(command@, env);
            Some(
                if !fix {
                    cmd
                } else if is_script(cmd) {
                    seq![cmd[0], cmd[1], "umask 0000 && "@ + cmd[2]]
                } else {
                    match c.args {
                        Some(args) => in_shell(
                            "umask 0000 && exec "@ + shell_text(cmd) + " "@ + shell_text(
                                expanded(args@, env),
                            ),
                        ),
                        None => in_shell("umask 0000 && exec "@ + shell_text(cmd)),
                    }
                },
            )
        },
        None => if !fix {
            None
        } else {
            match c.args {
                Some(args) => Some(
                    in_shell(
                        "umask 0000 && exec "@ + shell_text(text::texts(image_entrypoint)) + " "@
                            + shell_text(expanded(args@, env)),
                    ),
                ),
                None => if image_entrypoint.len() == 0 && image_cmd.len() == 0 {
                    None
                } else {
                    Some(
                        in_shell(
                            "umask 0000 && exec "@ + shell_text(text::texts(image_entrypoint))
                                + " "@ + shell_text(text::texts(image_cmd)),
                        ),
                    )
                },
            }
        },
    }
}

/// The command of a container, behind its entry point.
pub open spec fn cmd_of(
    c: Container,
    env: Seq<(Seq<char>, Seq<char>)>,
    fix: bool,
    image_entrypoint: Seq<String>,
    image_cmd: Seq<String>,
) -> Option<Seq<Seq<char>>> {
    match c.command {
        Some(command) => match c.args {
            Some(args) => if !fix || is_script(expanded(command@, env)) {
                Some(expanded(args@, env))
            } else {
                Some(Seq::empty())
            },
            None => Some(Seq::empty()),
        },
        None => match c.args {
            Some(args) => if fix {
                Some(Seq::empty())
            } else {
                Some(expanded(args@, env))
            },
            None => if fix && !(image_entrypoint.len() == 0 && image_cmd.len() == 0) {
                Some(Seq::empty())
            } else {
                None
            },
        },
    }
}

/// A shell that runs `line`.
fn shell_with(line: String) -> (r: Vec<String>)
    ensures
        text::texts(r@) == in_shell(line@),
{
    let mut r: Vec<String> = Vec::new();
    r.push(String::from_str("/bin/sh"));
    r.push(String::from_str("-c"));
    r.push(line);
    assert(text::texts(r@) =~= in_shell(line@));
    r
}

/// An empty list of words.
fn no_words() -> (r: Vec<String>)
    ensures
        text::texts(r@) == Seq::<Seq<char>>::empty(),
{
    let r: Vec<String> = Vec::new();
    assert(text::texts(r@) =~= Seq::<Seq<char>>::empty());
    r
}

/// The command `cmd` under a cleared file mode mask, `args` being the text of what
/// follows it in the shell.
fn masked_command(cmd: Vec<String>, args: Option<&Vec<String>>) -> (r: Vec<String>)
    ensures
        text::texts(r@) == (if is_script(text::texts(cmd@)) {
            let t = text::texts(cmd@);
            seq![t[0], t[1], "umask 0000 && "@ + t[2]]
        } else {
            match args {
                Some(a) => in_shell(
                    "umask 0000 && exec "@ + shell_text(text::texts(cmd@)) + " "@ + shell_text(
                        text::texts(a@),
                    ),
                ),
                None => in_shell("umask 0000 && exec "@ + shell_text(text::texts(cmd@))),
            }
        }),
{
    let ghost t = text::texts(cmd@);
    if cmd.len() == 3 {
        assert(t[0] == cmd@[0]@ && t[1] == cmd@[1]@ && t[2] == cmd@[2]@);
        if (text::same(cmd[0].as_str(), "sh") || text::same(cmd[0].as_str(), "/bin/sh"))
            && text::same(cmd[1].as_str(), "-c") {
            let mut r: Vec<String> = Vec::new();
            r.push(cmd[0].clone());
            r.push(cmd[1].clone());
            r.push(text::cat2("umask 0000 && ", cmd[2].as_str()));
            assert(text::texts(r@) =~= seq![t[0], t[1], "umask 0000 && "@ + t[2]]);
            return r;
        }
    }
    assert(!is_script(t));
    let first = shell_join(&cmd);
    match args {
        Some(a) => {
            let rest = shell_join(a);
            shell_with(text::cat4("umask 0000 && exec ", first.as_str(), " ", rest.as_str()))
        },
        None => shell_with(text::cat2("umask 0000 && exec ", first.as_str())),
    }
}

/// What a container runs. With `fix` its files are created for everybody, which takes a
/// shell around the command; the last two arguments are then the image's own entry point
/// and command.
pub fn command_line(
    c: &Container,
    env: &[(String, String)],
    fix: bool,
    image_entrypoint: &Vec<String>,
    image_cmd: &Vec<String>,
) -> (r: CommandLine)
    ensures
        opt_texts(r.entrypoint) == entrypoint_of(*c, api::pair_texts(env@), fix, image_entrypoint@, image_cmd@),
        opt_texts(r.cmd) == cmd_of(*c, api::pair_texts(env@), fix, image_entrypoint@, image_cmd@),
{
    match &c.command {
        Some(command) => {
            let cmd = expand::expand_k8s_vars(command, env);
            match &c.args {
                Some(args) => {
                    let a = expand::expand_k8s_vars(args, env);
                    if fix {
                        let script: bool = cmd.len() == 3 && (text::same(cmd[0].as_str(), "sh")
                            || text::same(cmd[0].as_str(), "/bin/sh")) && text::same(
                            cmd[1].as_str(),
                            "-c",
                        );
                        assert(cmd@.len() == 3 ==> text::texts(cmd@)[0] == cmd@[0]@
                            && text::texts(cmd@)[1] == cmd@[1]@);
                        assert(script == is_script(expanded(command@, api::pair_texts(env@))));
                        let entry = masked_command(cmd, Some(&a));
                        let rest = if script {
                            a
                        } else {
                            no_words()
                        };
                        CommandLine { entrypoint: Some(entry), cmd: Some(rest) }
                    } else {
                        CommandLine { entrypoint: Some(cmd), cmd: Some(a) }
                    }
                },
                None => {
                    let entry = if fix {
                        masked_command(cmd, None)
                    } else {
                        cmd
                    };
                    CommandLine { entrypoint: Some(entry), cmd: Some(no_words()) }
                },
            }
        },
        None => match &c.args {
            Some(args) => {
                let a = expand::expand_k8s_vars(args, env);
                if fix {
                    let ep = shell_join(image_entrypoint);
                    let rest = shell_join(&a);
                    let line = text::cat4("umask 0000 && exec ", ep.as_str(), " ", rest.as_str());
                    CommandLine { entrypoint: Some(shell_with(line)), cmd: Some(no_words()) }
                } else {
                    CommandLine { entrypoint: None, cmd: Some(a) }
                }
            },
            None => {
                if fix && !(image_entrypoint.len() == 0 && image_cmd.len() == 0) {
                    let ep = shell_join(image_entrypoint);
                    let rest = shell_join(image_cmd);
                    let line = text::cat4("umask 0000 && exec ", ep.as_str(), " ", rest.as_str());
                    CommandLine { entrypoint: Some(shell_with(line)), cmd: Some(no_words()) }
                } else {
                    CommandLine { entrypoint: None, cmd: None }
                }
            },
        },
    }
}

/// The words `w` are the words `v`, one for one and in order, each with its variables expanded.
pub open spec fn are_expanded(
    w: Seq<Seq<char>>,
    v: Seq<String>,
    env: Seq<(Seq<char>, Seq<char>)>,
) -> bool {
    &&& w.len() == v.len()
    &&& forall|i: int|
        0 <= i < v.len() ==> w[i] == expand::command_expansion((#[trigger] v[i])@, env)
    &&& forall|i: int| 0 <= i < v.len() && !(#[trigger] v[i])@.contains('$') ==> w[i] == v[i]@
}

proof fn lemma_expanded(v: Seq<String>, env: Seq<(Seq<char>, Seq<char>)>)
    ensures
        are_expanded(expanded(v, env), v, env),
{
    assert forall|i: int| 0 <= i < v.len() && !(#[trigger] v[i])@.contains('$') implies expanded(
        v,
        env,
    )[i] == v[i]@ by {
        assert(!Seq::<char>::empty().contains(')'));
        expand::law_command_words_take_the_variables_values(
            v[i]@,
            Seq::empty(),
            Seq::empty(),
            env,
        );
    }
}

/// A container runs its own command with its own arguments behind it, one for one, in order and
/// with their variables expanded. Where it gives no command the image's entry point stays;
/// where it gives a command and no arguments nothing stands behind the command; where it gives
/// neither, all stays the image's.
pub proof fn law_containers_run_what_they_ask_for(
    c: Container,
    env: Seq<(Seq<char>, Seq<char>)>,
    image_entrypoint: Seq<String>,
    image_cmd: Seq<String>,
)
    ensures
        ({
            let entry = entrypoint_of(c, env, false, image_entrypoint, image_cmd);
            let cmd = cmd_of(c, env, false, image_entrypoint, image_cmd);
            &&& c.command is None ==> entry is None
            &&& c.command matches Some(v) ==> (entry matches Some(w) && are_expanded(w, v@, env))
            &&& c.args matches Some(v) ==> (cmd matches Some(w) && are_expanded(w, v@, env))
            &&& c.args is None && c.command is Some ==> (cmd matches Some(w) && w.len() == 0)
            &&& c.args is None && c.command is None ==> cmd is None
        }),
{
    if let Some(v) = c.command {
        lemma_expanded(v@, env);
    }
    if let Some(v) = c.args {
        lemma_expanded(v@, env);
    }
}

/// The words of a text that is joined from two with a space between are those of both.
proof fn lemma_two_parts(a: Seq<Seq<char>>, b: Seq<Seq<char>>)
    requires
        forall|i: int| 0 <= i < a.len() ==> !(#[trigger] a[i]).contains('$'),
        forall|i: int| 0 <= i < b.len() ==> !(#[trigger] b[i]).contains('$'),
    ensures
        shell_words(shell_text(a) + " "@ + shell_text(b)) == Some(a + b),
{
    reveal_strlit(" ");
    let tail = seq![' '] + shell_text(b);
    assert(shell_text(a) + " "@ + shell_text(b) =~= shell_text(a) + tail);
    law_a_shell_reads_the_arguments_back(b);
    assert(tail[0] == ' ');
    assert(tail.drop_first() =~= shell_text(b));
    if a.len() == 0 {
        assert(shell_text(a) + tail =~= tail);
        assert(words_from(tail, Quoting::Bare, None) == preceded(
            Seq::empty(),
            words_from(shell_text(b), Quoting::Bare, None),
        ));
        assert(Seq::<Seq<char>>::empty() + b =~= a + b);
    } else {
        lemma_joined_words(a, tail);
        assert(words_from(tail, Quoting::Bare, Some(a.last())) == preceded(
            seq![a.last()],
            words_from(shell_text(b), Quoting::Bare, None),
        ));
        assert(a.drop_last() + (seq![a.last()] + b) =~= a + b);
    }
}

/// The list holds no `$`.
pub open spec fn is_plain_list(v: Seq<String>) -> bool {
    forall|i: int| 0 <= i < v.len() ==> !(#[trigger] v[i])@.contains('$')
}

/// A shell runs the words `w` under a cleared mask.
pub open spec fn runs_masked(entry: Option<Seq<Seq<char>>>, w: Seq<Seq<char>>) -> bool {
    entry matches Some(e) && e.len() == 3 && e[0] == "/bin/sh"@ && e[1] == "-c"@ && text::begins(
        e[2],
        "umask 0000 && exec "@,
    ) && shell_words(e[2].skip("umask 0000 && exec "@.len() as int)) == Some(w)
}

/// Under a cleared file mode mask a container still runs the command and the arguments that it
/// asks for, or else the image's, where none of them holds a `$`: a shell reads them back in
/// order. A command that is a shell script already has the mask cleared before it, and its
/// arguments stay behind it.
pub proof fn law_masked_containers_run_what_they_ask_for(
    c: Container,
    env: Seq<(Seq<char>, Seq<char>)>,
    image_entrypoint: Seq<String>,
    image_cmd: Seq<String>,
)
    requires
        c.command matches Some(v) ==> is_plain_list(v@),
        c.args matches Some(v) ==> is_plain_list(v@),
        is_plain_list(image_entrypoint),
        is_plain_list(image_cmd),
    ensures
        ({
            let entry = entrypoint_of(c, env, true, image_entrypoint, image_cmd);
            let cmd = cmd_of(c, env, true, image_entrypoint, image_cmd);
            let args = match c.args {
                Some(v) => text::texts(v@),
                None => Seq::empty(),
            };
            match c.command {
                Some(v) => {
                    let w = text::texts(v@);
                    let script = w.len() == 3 && (w[0] == "sh"@ || w[0] == "/bin/sh"@) && w[1]
                        == "-c"@;
                    &&& script ==> entry == Some(seq![w[0], w[1], "umask 0000 && "@ + w[2]]) && cmd
                        == Some(args)
                    &&& !script ==> runs_masked(entry, w + args) && (cmd matches Some(x) && x.len()
                        == 0)
                },
                None => if c.args is Some {
                    runs_masked(entry, text::texts(image_entrypoint) + args) && (cmd matches Some(x)
                        && x.len() == 0)
                } else if image_entrypoint.len() == 0 && image_cmd.len() == 0 {
                    entry is None && cmd is None
                } else {
                    runs_masked(
                        entry,
                        text::texts(image_entrypoint) + text::texts(image_cmd),
                    ) && (cmd matches Some(x) && x.len() == 0)
                },
            }
        }),
{
    let front = "umask 0000 && exec "@;
    let entry = entrypoint_of(c, env, true, image_entrypoint, image_cmd);
    let cmd = cmd_of(c, env, true, image_entrypoint, image_cmd);
    lemma_plain_texts(image_entrypoint);
    lemma_plain_texts(image_cmd);
    if let Some(v) = c.command {
        lemma_expanded(v@, env);
        lemma_plain_texts(v@);
        assert(expanded(v@, env) =~= text::texts(v@));
    }
    let args = match c.args {
        Some(v) => text::texts(v@),
        None => Seq::empty(),
    };
    if let Some(v) = c.args {
        lemma_expanded(v@, env);
        lemma_plain_texts(v@);
        assert(expanded(v@, env) =~= text::texts(v@));
    }
    if let Some(v) = c.command {
        let w = text::texts(v@);
        let script = w.len() == 3 && (w[0] == "sh"@ || w[0] == "/bin/sh"@) && w[1] == "-c"@;
        if script {
            if c.args is None {
                assert(cmd->0 =~= args);
            }
        } else if c.args is Some {
            lemma_two_parts(w, args);
            lemma_masked_line(w, args, front);
        } else {
            law_a_shell_reads_the_arguments_back(w);
            assert(w + args =~= w);
            assert((front + shell_text(w)).take(front.len() as int) =~= front);
            assert((front + shell_text(w)).skip(front.len() as int) =~= shell_text(w));
        }
    } else if c.args is Some {
        lemma_two_parts(text::texts(image_entrypoint), args);
        lemma_masked_line(text::texts(image_entrypoint), args, front);
    } else {
        lemma_two_parts(text::texts(image_entrypoint), text::texts(image_cmd));
        lemma_masked_line(text::texts(image_entrypoint), text::texts(image_cmd), front);
    }
}

proof fn lemma_masked_line(a: Seq<Seq<char>>, b: Seq<Seq<char>>, front: Seq<char>)
    ensures
        ({
            let line = front + shell_text(a) + " "@ + shell_text(b);
            &&& line.take(front.len() as int) == front
            &&& line.skip(front.len() as int) == shell_text(a) + " "@ + shell_text(b)
        }),
{
    let line = front + shell_text(a) + " "@ + shell_text(b);
    assert(line.take(front.len() as int) =~= front);
    assert(line.skip(front.len() as int) =~= shell_text(a) + " "@ + shell_text(b));
}

proof fn lemma_plain_texts(v: Seq<String>)
    requires
        is_plain_list(v),
    ensures
        forall|i: int|
            0 <= i < text::texts(v).len() ==> !(#[trigger] text::texts(v)[i]).contains('$'),
{
    assert forall|i: int| 0 <= i < text::texts(v).len() implies !(
    #[trigger] text::texts(v)[i]).contains('$') by {
        assert(!v[i]@.contains('$'));
    }
}

/// What stands between double quotes, read without its backslashes; `None` where a quote or a
/// backslash stands there that is not behind a backslash.
pub open spec fn between_quotes(s: Seq<char>) -> Option<Seq<char>>
    decreases s.len(),
{
    if s.len() == 0 {
        Some(Seq::empty())
    } else if s[0] == '"' {
        None
    } else if s[0] == '\\' {
        if s.len() > 1 && (s[1] == '\\' || s[1] == '"') {
            match between_quotes(s.skip(2)) {
                Some(t) => Some(seq![s[1]] + t),
                None => None,
            }
        } else {
            None
        }
    } else {
        match between_quotes(s.skip(1)) {
            Some(t) => Some(seq![s[0]] + t),
            None => None,
        }
    }
}

proof fn lemma_replaced_front(s: Seq<char>, c: char, with: Seq<char>)
    requires
        s.len() > 0,
    ensures
        text::replaced(s, c, with) == (if s[0] == c {
            with
        } else {
            seq![s[0]]
        }) + text::replaced(s.skip(1), c, with),
    decreases s.len(),
{
    let first = if s[0] == c {
        with
    } else {
        seq![s[0]]
    };
    if s.len() == 1 {
        assert(s.drop_last() =~= Seq::<char>::empty());
        assert(s.skip(1) =~= Seq::<char>::empty());
        assert(text::replaced(s.drop_last(), c, with) =~= Seq::<char>::empty());
        assert(text::replaced(s.skip(1), c, with) =~= Seq::<char>::empty());
        assert(text::replaced(s, c, with) =~= first);
    } else {
        let short = s.drop_last();
        lemma_replaced_front(short, c, with);
        assert(short.skip(1) =~= s.skip(1).drop_last());
        let last = if s.last() == c {
            with
        } else {
            seq![s.last()]
        };
        assert(s.skip(1).last() == s.last());
        assert((first + text::replaced(short.skip(1), c, with)) + last =~= first + (text::replaced(
            short.skip(1),
            c,
            with,
        ) + last));
    }
}

proof fn lemma_escaped(s: Seq<char>)
    ensures
        between_quotes(text::replaced(text::replaced(s, '\\', "\\\\"@), '"', "\\\""@)) == Some(s),
    decreases s.len(),
{
    reveal_strlit("\\\\");
    reveal_strlit("\\\"");
    let two = "\\\\"@;
    let quote = "\\\""@;
    let x = text::replaced(s, '\\', two);
    let y = text::replaced(x, '"', quote);
    if s.len() == 0 {
        assert(x =~= Seq::<char>::empty());
        assert(y =~= Seq::<char>::empty());
        assert(s =~= Seq::<char>::empty());
    } else {
        let t = s.skip(1);
        let u = text::replaced(t, '\\', two);
        let z = text::replaced(u, '"', quote);
        lemma_escaped(t);
        lemma_replaced_front(s, '\\', two);
        lemma_replaced_front(x, '"', quote);
        assert(seq![s[0]] + t =~= s);
        if s[0] == '\\' {
            assert(x =~= seq!['\\', '\\'] + u);
            assert(x[0] == '\\');
            assert(x.skip(1) =~= seq!['\\'] + u);
            lemma_replaced_front(x.skip(1), '"', quote);
            assert(x.skip(1).skip(1) =~= u);
            assert(y =~= seq!['\\', '\\'] + z);
            assert(y.skip(2) =~= z);
        } else if s[0] == '"' {
            assert(x =~= seq!['"'] + u);
            assert(x.skip(1) =~= u);
            assert(y =~= seq!['\\', '"'] + z);
            assert(y.skip(2) =~= z);
        } else {
            assert(x =~= seq![s[0]] + u);
            assert(x.skip(1) =~= u);
            assert(y =~= seq![s[0]] + z);
            assert(y.skip(1) =~= z);
        }
    }
}

/// A word with variables stands between double quotes, within which a shell expands them, and
/// is read there as it was but for that.
pub proof fn law_words_with_variables_stay_alive(s: Seq<char>)
    requires
        s.contains('$'),
    ensures
        ({
            let w = shell_word(s);
            &&& w.len() >= 2
            &&& w[0] == '"'
            &&& w.last() == '"'
            &&& between_quotes(w.subrange(1, w.len() - 1)) == Some(s)
        }),
{
    reveal_strlit("\"");
    lemma_escaped(s);
    let body = text::replaced(text::replaced(s, '\\', "\\\\"@), '"', "\\\""@);
    let w = shell_word(s);
    assert(s.len() > 0);
    assert(w.subrange(1, w.len() - 1) =~= body);
}

} // verus!
