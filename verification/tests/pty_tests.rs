use pier_core::terminal::pty::{
    child_argv, child_environment, default_shell, fork_side, login_shell_args, read_outcome, resize_outcome,
    teardown_next, write_outcome, ForkSide, PtyError, TeardownStep, READ_BUFFER_LEN,
    TEARDOWN_WAIT_MS,
};
use pier_core::text::{
    chars_of, contains_chars, is_space_char, split_chars, split_words, str_contains,
    str_starts_with, string_of, strip_trailing_end,
};

#[test]
fn child_is_started_with_program_and_arguments() {
    assert_eq!(default_shell(), "/bin/zsh");
    assert_eq!(login_shell_args(), vec!["-l"]);
    assert_eq!(child_argv("/bin/zsh", &login_shell_args()), vec!["/bin/zsh", "-l"]);
    assert_eq!(child_argv("top", &Vec::new()), vec!["top"]);
    assert_eq!(
        child_argv("ssh", &vec!["-p".to_string(), "22".to_string()]),
        vec!["ssh", "-p", "22"]
    );
}

#[test]
fn child_environment_names_terminal_and_locale() {
    assert_eq!(
        child_environment(),
        vec!["TERM=xterm-256color", "LANG=en_US.UTF-8", "LC_ALL=en_US.UTF-8"]
    );
}

#[test]
fn fork_results() {
    assert_eq!(fork_side(-1), Err(PtyError::SpawnFailed));
    assert_eq!(fork_side(0), Ok(ForkSide::Child));
    assert_eq!(fork_side(4711), Ok(ForkSide::Parent(4711)));
}

#[test]
fn reads_and_writes() {
    assert_eq!(read_outcome(5, false), Ok(5));
    assert_eq!(read_outcome(0, false), Ok(0));
    assert_eq!(read_outcome(-1, true), Ok(0));
    assert_eq!(read_outcome(-1, false), Err(PtyError::IoError));
    assert_eq!(write_outcome(3, false), Ok(3));
    assert_eq!(write_outcome(-1, true), Ok(0));
    assert_eq!(write_outcome(-1, false), Err(PtyError::IoError));
    assert_eq!(resize_outcome(0), Ok(()));
    assert_eq!(resize_outcome(-1), Err(PtyError::IoError));
    assert_eq!(READ_BUFFER_LEN, 64 * 1024);
    assert_eq!(TEARDOWN_WAIT_MS, 100);
}

fn run_teardown(first_check: bool, second_check: bool) -> Vec<TeardownStep> {
    let mut steps = vec![TeardownStep::SendTerm];
    let mut step = TeardownStep::SendTerm;
    while step != TeardownStep::Done {
        let running = match step {
            TeardownStep::CheckExited => first_check,
            TeardownStep::CheckAgain => second_check,
            _ => false,
        };
        step = teardown_next(step, running);
        steps.push(step);
        assert!(steps.len() <= 7);
    }
    steps
}

#[test]
fn teardown_protocol() {
    type T = TeardownStep;
    assert_eq!(run_teardown(false, false), vec![T::SendTerm, T::CheckExited, T::Done]);
    assert_eq!(
        run_teardown(true, false),
        vec![T::SendTerm, T::CheckExited, T::Wait, T::CheckAgain, T::Done]
    );
    assert_eq!(
        run_teardown(true, true),
        vec![
            T::SendTerm,
            T::CheckExited,
            T::Wait,
            T::CheckAgain,
            T::SendKill,
            T::Reap,
            T::Done
        ]
    );
    assert_eq!(teardown_next(T::Done, true), T::Done);
    assert_eq!(teardown_next(T::Wait, true), T::CheckAgain);
    assert_eq!(teardown_next(T::SendKill, false), T::Reap);
}

#[test]
fn characters_of_strings() {
    assert_eq!(chars_of("aé✓"), vec!['a', 'é', '✓']);
    assert_eq!(chars_of(""), Vec::<char>::new());
    let chars = chars_of("hello");
    assert_eq!(string_of(&chars, 1, 4), "ell");
    assert_eq!(string_of(&chars, 2, 2), "");
    assert_eq!(string_of(&chars, 0, 5), "hello");
}

#[test]
fn splitting() {
    assert_eq!(split_chars(&chars_of("a,b,,c"), ','), vec!["a", "b", "", "c"]);
    assert_eq!(split_chars(&chars_of(""), ','), vec![""]);
    assert_eq!(split_chars(&chars_of(","), ','), vec!["", ""]);
    assert_eq!(split_words(&chars_of("  ab  c\td ")), vec![(2, 4), (6, 7), (8, 9)]);
    assert_eq!(split_words(&chars_of(" \n ")), Vec::<(usize, usize)>::new());
    assert_eq!(strip_trailing_end(&chars_of("ab,,"), 0, 4, ','), 2);
    assert_eq!(strip_trailing_end(&chars_of(",,"), 0, 2, ','), 0);
    assert_eq!(strip_trailing_end(&chars_of("a,b"), 0, 3, ','), 3);
}

#[test]
fn searching_in_strings() {
    assert!(str_contains("inactive", "active"));
    assert!(str_contains("abc", ""));
    assert!(str_contains("", ""));
    assert!(!str_contains("", "a"));
    assert!(!str_contains("abc", "abcd"));
    assert!(!str_contains("PoNG", "PONG"));
    assert!(str_starts_with("refs/remotes/x", "refs/"));
    assert!(!str_starts_with("xrefs/", "refs/"));
    assert!(contains_chars(&chars_of("xyz"), &chars_of("z")));
    for (hay, needle) in [("aaab", "aab"), ("abab", "bab"), ("abc", "ac"), ("é✓", "✓")] {
        assert_eq!(str_contains(hay, needle), hay.contains(needle));
    }
}

#[test]
fn white_space_is_what_the_standard_library_says() {
    let mut code = 0u32;
    while code <= 0x3100 {
        if let Some(c) = char::from_u32(code) {
            assert_eq!(is_space_char(c), c.is_whitespace(), "U+{:04X}", code);
        }
        code += 1;
    }
    assert!(!is_space_char('\u{feff}'));
    assert!(!is_space_char('\u{10ffff}'));
}
