//! Supervisor-side decisions for running the worker with raised privileges:
//! which helper to use, the command line it runs, and how to tell that the
//! privileges were granted.
use vstd::prelude::*;
use vstd::string::*;

verus! {

/// The escalated process prints this, alone on its first line of standard
/// output, once it holds the privileges and before any other output.
pub const SUCCESS_TOKEN: &'static str = "znxbnvm,,xbnzcvnmxzv,.,,,";

/// Why escalation could not start.
#[derive(Debug, Clone, Copy, PartialEq, Eq)]
pub enum Error {
    /// None of the known helpers (sudo, doas, su) is installed.
    UnixNotDetected,
    /// The user declined the confirmation dialog.
    MacOSDenial,
}

impl Error {
    /// The text shown to the user.
    pub open spec fn text(self) -> Seq<char> {
        match self {
            Error::UnixNotDetected => "Could not become root! Searched for sudo, doas, su"@,
            Error::MacOSDenial => "User failed to confirm"@,
        }
    }

    pub fn message(&self) -> (r: &'static str)
        ensures
            r@ == self.text(),
    {
        match self {
            Error::UnixNotDetected => "Could not become root! Searched for sudo, doas, su",
            Error::MacOSDenial => "User failed to confirm",
        }
    }
}

/// A helper that runs a command with raised privileges.
#[derive(Debug, Clone, Copy, PartialEq, Eq)]
pub enum EscalationMethod {
    Sudo,
    Doas,
    Su,
}

/// The helper chosen from those installed: sudo first, then doas, then su.
pub open spec fn first_available(sudo: bool, doas: bool, su: bool) -> Result<EscalationMethod, Error> {
    if sudo {
        Ok(EscalationMethod::Sudo)
    } else if doas {
        Ok(EscalationMethod::Doas)
    } else if su {
        Ok(EscalationMethod::Su)
    } else {
        Err(Error::UnixNotDetected)
    }
}

pub const SINGLE_QUOTE: u8 = 39;

pub const BACKSLASH: u8 = 92;

pub const SPACE: u8 = 32;

/// `a` with each single quote written as `'\''`, for use inside single quotes.
pub open spec fn escaped(a: Seq<u8>) -> Seq<u8>
    decreases a.len(),
{
    if a.len() == 0 {
        Seq::empty()
    } else {
        escaped(a.drop_last()) + if a.last() == SINGLE_QUOTE {
            seq![SINGLE_QUOTE, BACKSLASH, SINGLE_QUOTE, SINGLE_QUOTE]
        } else {
            seq![a.last()]
        }
    }
}

/// `a` as one word of a POSIX shell command line.
pub open spec fn quoted(a: Seq<u8>) -> Seq<u8> {
    seq![SINGLE_QUOTE] + escaped(a) + seq![SINGLE_QUOTE]
}

/// The words quoted and separated by single spaces.
pub open spec fn joined(args: Seq<Seq<u8>>) -> Seq<u8>
    decreases args.len(),
{
    if args.len() == 0 {
        Seq::empty()
    } else if args.len() == 1 {
        quoted(args[0])
    } else {
        joined(args.drop_last()) + seq![SPACE] + quoted(args.last())
    }
}

/// The argument vector that runs `argv` through helper `m`.
pub open spec fn wrapped(m: EscalationMethod, argv: Seq<Seq<u8>>) -> Seq<Seq<u8>> {
    match m {
        EscalationMethod::Sudo => seq![seq![115u8, 117u8, 100u8, 111u8]] + argv,
        EscalationMethod::Doas => seq![seq![100u8, 111u8, 97u8, 115u8]] + argv,
        EscalationMethod::Su => seq![
            seq![115u8, 117u8],
            seq![114u8, 111u8, 111u8, 116u8],
            seq![45u8, 99u8],
            joined(argv),
        ],
    }
}

/// The byte contents of a list of byte vectors.
pub open spec fn words(v: Seq<Vec<u8>>) -> Seq<Seq<u8>> {
    v.map_values(|x: Vec<u8>| x@)
}

/// Appends `quoted(a)` to `out`.
fn push_quoted(out: &mut Vec<u8>, a: &Vec<u8>)
    ensures
        final(out)@ == old(out)@ + quoted(a@),
{
    out.push(SINGLE_QUOTE);
    let ghost start = out@;
    let mut i: usize = 0;
    while i < a.len()
        invariant
            i <= a.len(),
            out@ == start + escaped(a@.subrange(0, i as int)),
        decreases a.len() - i,
    {
        let ghost prefix = a@.subrange(0, i as int);
        assert(a@.subrange(0, i + 1).drop_last() =~= prefix);
        if a[i] == SINGLE_QUOTE {
            out.push(SINGLE_QUOTE);
            out.push(BACKSLASH);
            out.push(SINGLE_QUOTE);
            out.push(SINGLE_QUOTE);
        } else {
            out.push(a[i]);
        }
        i += 1;
        assert(out@ =~= start + escaped(a@.subrange(0, i as int)));
    }
    assert(a@.subrange(0, a.len() as int) =~= a@);
    out.push(SINGLE_QUOTE);
    assert(out@ =~= old(out)@ + quoted(a@));
}

impl EscalationMethod {
    /// Picks the helper from those found installed: sudo first, then doas,
    /// then su; none of them is `UnixNotDetected`.
    pub fn detect(sudo: bool, doas: bool, su: bool) -> (r: Result<EscalationMethod, Error>)
        ensures
            r == first_available(sudo, doas, su),
    {
        if sudo {
            Ok(EscalationMethod::Sudo)
        } else if doas {
            Ok(EscalationMethod::Doas)
        } else if su {
            Ok(EscalationMethod::Su)
        } else {
            Err(Error::UnixNotDetected)
        }
    }

    /// The argument vector that runs `argv` (program first) through this
    /// helper: sudo and doas take it as it is, su as one quoted command line.
    pub fn wrap_command(&self, argv: &Vec<Vec<u8>>) -> (r: Vec<Vec<u8>>)
        ensures
            words(r@) == wrapped(*self, words(argv@)),
    {
        match self {
            EscalationMethod::Sudo | EscalationMethod::Doas => {
                let mut r: Vec<Vec<u8>> = Vec::new();
                let name = match self {
                    EscalationMethod::Sudo => vec![115u8, 117u8, 100u8, 111u8],
                    _ => vec![100u8, 111u8, 97u8, 115u8],
                };
                r.push(name);
                let mut i: usize = 0;
                while i < argv.len()
                    invariant
                        i <= argv.len(),
                        words(r@) == seq![name@] + words(argv@).subrange(0, i as int),
                    decreases argv.len() - i,
                {
                    let word = argv[i].clone();
                    assert(word@ =~= argv@[i as int]@);
                    let ghost before = r@;
                    r.push(word);
                    assert(words(r@) =~= words(before).push(word@));
                    assert(words(argv@).subrange(0, i + 1) =~= words(argv@).subrange(0, i as int).push(word@));
                    i += 1;
                    assert(words(r@) =~= seq![name@] + words(argv@).subrange(0, i as int));
                }
                assert(words(argv@).subrange(0, argv.len() as int) =~= words(argv@));
                r
            },
            EscalationMethod::Su => {
                let mut line: Vec<u8> = Vec::new();
                let mut i: usize = 0;
                while i < argv.len()
                    invariant
                        i <= argv.len(),
                        line@ == joined(words(argv@).subrange(0, i as int)),
                    decreases argv.len() - i,
                {
                    let ghost before = words(argv@).subrange(0, i as int);
                    assert(words(argv@).subrange(0, i + 1).drop_last() =~= before);
                    if i > 0 {
                        line.push(SPACE);
                    }
                    push_quoted(&mut line, &argv[i]);
                    i += 1;
                    proof {
                        if i == 1 {
                            assert(line@ =~= joined(words(argv@).subrange(0, i as int)));
                        } else {
                            assert(line@ =~= joined(words(argv@).subrange(0, i as int)));
                        }
                    }
                }
                assert(words(argv@).subrange(0, argv.len() as int) =~= words(argv@));
                let mut r: Vec<Vec<u8>> = Vec::new();
                r.push(vec![115u8, 117u8]);
                r.push(vec![114u8, 111u8, 111u8, 116u8]);
                r.push(vec![45u8, 99u8]);
                r.push(line);
                assert(words(r@) =~= wrapped(*self, words(argv@)));
                r
            },
        }
    }
}

/// `out` with one line ending (`\n` or `\r\n`) taken off its end.
pub open spec fn without_line_end(out: Seq<u8>) -> Seq<u8> {
    if out.len() >= 2 && out[out.len() - 2] == 13 && out[out.len() - 1] == 10 {
        out.subrange(0, out.len() - 2)
    } else if out.len() >= 1 && out[out.len() - 1] == 10 {
        out.drop_last()
    } else {
        out
    }
}

/// Whether the first line that the escalated process printed (with or
/// without its line ending) is the success token: anything else, a prompt
/// or an error, means the privileges are not granted yet.
pub fn confirms_escalation(first_line: &[u8]) -> (r: bool)
    ensures
        r == (without_line_end(first_line@) == SUCCESS_TOKEN.spec_bytes()),
{
    let n = first_line.len();
    let end = if n >= 2 && first_line[n - 2] == 13 && first_line[n - 1] == 10 {
        n - 2
    } else if n >= 1 && first_line[n - 1] == 10 {
        n - 1
    } else {
        n
    };
    assert(without_line_end(first_line@) =~= first_line@.subrange(0, end as int));
    let token = SUCCESS_TOKEN.as_bytes();
    if end != token.len() {
        return false;
    }
    let mut i: usize = 0;
    while i < end
        invariant
            i <= end <= first_line.len(),
            end == token.len(),
            token@ == SUCCESS_TOKEN.spec_bytes(),
            first_line@.subrange(0, i as int) == token@.subrange(0, i as int),
        decreases end - i,
    {
        if first_line[i] != token[i] {
            assert(first_line@.subrange(0, end as int)[i as int] != token@[i as int]);
            return false;
        }
        assert(first_line@.subrange(0, i + 1) =~= first_line@.subrange(0, i as int).push(first_line@[i as int]));
        assert(token@.subrange(0, i + 1) =~= token@.subrange(0, i as int).push(token@[i as int]));
        i += 1;
    }
    assert(token@.subrange(0, end as int) =~= token@);
    true
}

} // verus!
