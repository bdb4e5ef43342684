//! From the text of a configuration to hosts and rules.
//!
//! The text is cut into lines, each directive line into words, and the
//! words are read as a directive. In between, the caller fills in what the
//! words denote as IP addresses and as factors.

use vstd::prelude::*;
use vstd::slice::slice_subrange;

use miniarg::split_args::SplitArgs;

use crate::forwarder::{App, AppError};
use crate::mapping::Mapping;
use crate::parse::{
    read_mapping, read_upstream, ParseMappingError, ParseUpstreamError, Word,
};
use crate::text::{find, lemma_position, position, same_text, trim, trimmed};
use crate::upstream::{Registry, RegistryError, Upstream};

verus! {

/// `miniarg::split_args::SplitArgs`, the iterator of `miniarg` over the
/// words of a command line. Nothing of its inside is known here.
#[verifier::external_type_specification]
#[verifier::external_body]
pub struct ExSplitArgs<'a>(SplitArgs<'a>);

/// The words that `miniarg` splits the line `line` into, by its own rules:
/// runs of characters between white space, where a pair of quotes keeps the
/// white space between them within a word. The rules are not restated here.
pub uninterp spec fn split_words(line: Seq<char>) -> Seq<Seq<char>>;

/// The words that the iterator `args` has yet to give, in order.
pub uninterp spec fn words_left(args: SplitArgs<'_>) -> Seq<Seq<char>>;

/// Calls `SplitArgs::new` of `miniarg`. Taken on trust: the iterator that
/// comes back has yet to give the words of `line`, all of them.
#[verifier::external_body]
fn split_args(line: &str) -> (args: SplitArgs<'_>)
    ensures
        words_left(args) == split_words(line@),
{
    SplitArgs::new(line)
}

/// Calls `next` of `miniarg`'s `SplitArgs`. Taken on trust: the call gives
/// the first of the words that are left and leaves the others, and gives
/// nothing, and changes nothing, once no word is left.
#[verifier::external_body]
fn next_word<'a>(args: &mut SplitArgs<'a>) -> (word: Option<&'a str>)
    ensures
        match word {
            Some(w) => {
                &&& words_left(*old(args)).len() > 0
                &&& w@ == words_left(*old(args))[0]
                &&& words_left(*final(args)) == words_left(*old(args)).skip(1)
            },
            None => {
                &&& words_left(*old(args)).len() == 0
                &&& words_left(*final(args)) == words_left(*old(args))
            },
        },
{
    args.next()
}

/// The texts of `words`.
pub open spec fn texts(words: Seq<Word>) -> Seq<Seq<char>> {
    words.map_values(|w: Word| w.text@)
}

/// Splits a line into its words, as `miniarg` does. The words denote
/// nothing yet: the caller fills that in.
pub fn parse_stream(line: &str) -> (out: Vec<Word>)
    ensures
        texts(out@) == split_words(line@),
        forall|i: int|
            0 <= i < out@.len() ==> (#[trigger] out@[i]).ip is None && out@[i].host is None
                && out@[i].factor is None,
{
    let mut args = split_args(line);
    let mut out: Vec<Word> = Vec::new();
    assert(texts(out@) + words_left(args) =~= split_words(line@));
    loop
        invariant
            texts(out@) + words_left(args) == split_words(line@),
            forall|i: int|
                0 <= i < out@.len() ==> (#[trigger] out@[i]).ip is None && out@[i].host is None
                    && out@[i].factor is None,
        ensures
            texts(out@) == split_words(line@),
        decreases words_left(args).len(),
    {
        let ghost left = words_left(args);
        match next_word(&mut args) {
            None => {
                assert(texts(out@) + left =~= texts(out@));
                break ;
            },
            Some(text) => {
                let ghost before = out@;
                out.push(Word::new(text.to_owned()));
                assert(texts(out@) + words_left(args) =~= texts(before) + left);
            },
        }
    }
    out
}

/// A line of a configuration that holds a directive.
#[derive(Clone, Debug, PartialEq, Eq)]
pub struct Line {
    /// The number of the line in the text, counted from one.
    pub number: usize,
    /// The line, without the white space at its ends.
    pub text: String,
}

/// Whether the line `line`, white space cut off, holds a directive: it is
/// not empty and does not start with `#`.
pub open spec fn is_directive(line: Seq<char>) -> bool {
    line.len() > 0 && line[0] != '#'
}

/// The directive lines of `text`, each with its number, where the first
/// line of `text` has the number `number`. Lines end at a line feed; the
/// white space at both ends of a line is cut off.
pub open spec fn read_lines(text: Seq<char>, number: nat) -> Seq<(nat, Seq<char>)>
    decreases text.len(),
    via read_lines_decreases
{
    if text.len() == 0 {
        Seq::empty()
    } else {
        let end = position(text, '\n');
        let line = trimmed(text.take(end));
        let here = if is_directive(line) {
            seq![(number, line)]
        } else {
            Seq::empty()
        };
        if end >= text.len() {
            here
        } else {
            here + read_lines(text.skip(end + 1), number + 1)
        }
    }
}

#[via_fn]
proof fn read_lines_decreases(text: Seq<char>, number: nat) {
    lemma_position(text, '\n');
}

/// The numbers and texts of `lines`.
pub open spec fn line_views(lines: Seq<Line>) -> Seq<(nat, Seq<char>)> {
    lines.map_values(|l: Line| (l.number as nat, l.text@))
}

/// Cuts a configuration into its directive lines.
pub fn lines(text: &str) -> (out: Vec<Line>)
    ensures
        line_views(out@) == read_lines(text@, 1),
{
    let n = text.unicode_len();
    let mut out: Vec<Line> = Vec::new();
    let mut start: usize = 0;
    let mut number: usize = 1;
    assert(text@.skip(0) =~= text@);
    assert(line_views(out@) + read_lines(text@, 1) =~= read_lines(text@, 1));
    while start < n
        invariant
            n == text@.len(),
            start <= n,
            start < n ==> number <= start + 1,
            line_views(out@) + read_lines(text@.skip(start as int), number as nat) == read_lines(
                text@,
                1,
            ),
        decreases n - start,
    {
        let rest = text.substring_char(start, n);
        let ghost tail = text@.skip(start as int);
        assert(rest@ =~= tail);
        proof {
            lemma_position(tail, '\n');
        }
        let end = match find(rest, '\n') {
            Some(end) => end,
            None => n - start,
        };
        let line = trim(rest.substring_char(0, end));
        assert(line@ == trimmed(tail.take(end as int)));
        let ghost before = out@;
        let ghost here = if is_directive(line@) {
            seq![(number as nat, line@)]
        } else {
            Seq::empty()
        };
        if line.unicode_len() > 0 && line.get_char(0) != '#' {
            out.push(Line { number, text: line.to_owned() });
        }
        assert(line_views(out@) =~= line_views(before) + here);
        let next = start + end;
        if next >= n {
            assert(line_views(out@) + Seq::<(nat, Seq<char>)>::empty() =~= line_views(out@));
            start = n;
            assert(text@.skip(n as int) =~= Seq::<char>::empty());
        } else {
            assert(tail.skip(end + 1) =~= text@.skip(next + 1));
            assert(line_views(out@) + read_lines(text@.skip(next + 1), (number + 1) as nat)
                =~= line_views(before) + (here + read_lines(
                tail.skip(end + 1),
                (number + 1) as nat,
            )));
            start = next + 1;
            if start < n {
                number += 1;
            }
        }
    }
    assert(line_views(out@) + Seq::<(nat, Seq<char>)>::empty() =~= line_views(out@));
    out
}

/// What a line of a configuration declares.
#[derive(Clone, Copy, Debug, PartialEq, Eq)]
pub enum Directive {
    /// A host.
    Upstream(Upstream),
    /// A forwarding rule.
    Forward(Mapping),
    /// Nothing that is known here; the line is passed over.
    Skipped,
}

/// Why a line declares nothing.
#[derive(Clone, Copy, Debug, PartialEq, Eq, Structural)]
pub enum ParseErrorKind {
    Upstream(ParseUpstreamError),
    Mapping(ParseMappingError),
    /// The line declares a host whose address an earlier line declared.
    DuplicateUpstreamDirectives,
}

/// Why a configuration cannot be read, and at which line.
#[derive(Clone, Copy, Debug, PartialEq, Eq, Structural)]
pub struct ParseError {
    pub line: usize,
    pub kind: ParseErrorKind,
}

/// What the words of a line declare. The first word names the directive:
/// `upstream` or `forward`. A line with another first word, or without
/// words, is passed over.
pub open spec fn read_directive(words: Seq<Word>) -> Result<Directive, ParseErrorKind> {
    if words.len() == 0 {
        Ok(Directive::Skipped)
    } else if words[0].text@ == "upstream"@ {
        match read_upstream(words.skip(1)) {
            Ok(host) => Ok(Directive::Upstream(host)),
            Err(e) => Err(ParseErrorKind::Upstream(e)),
        }
    } else if words[0].text@ == "forward"@ {
        match read_mapping(words.skip(1)) {
            Ok(mapping) => Ok(Directive::Forward(mapping)),
            Err(e) => Err(ParseErrorKind::Mapping(e)),
        }
    } else {
        Ok(Directive::Skipped)
    }
}

/// Reads the words of a line as a directive.
pub fn parse_directive(words: &[Word]) -> (r: Result<Directive, ParseErrorKind>)
    ensures
        r == read_directive(words@),
        r matches Ok(Directive::Forward(mapping)) ==> mapping.kind.wf(),
{
    let n = words.len();
    if n == 0 {
        return Ok(Directive::Skipped);
    }
    let name = words[0].text.as_str();
    let rest = slice_subrange(words, 1, n);
    assert(rest@ =~= words@.skip(1));
    if same_text(name, "upstream") {
        match Upstream::parse(rest) {
            Ok(host) => Ok(Directive::Upstream(host)),
            Err(e) => Err(ParseErrorKind::Upstream(e)),
        }
    } else if same_text(name, "forward") {
        match Mapping::parse(rest) {
            Ok(mapping) => Ok(Directive::Forward(mapping)),
            Err(e) => Err(ParseErrorKind::Mapping(e)),
        }
    } else {
        Ok(Directive::Skipped)
    }
}

/// The hosts and the rules that a configuration declares.
#[derive(Clone, Debug)]
pub struct Config {
    pub upstream: Registry,
    pub mappings: Vec<Mapping>,
}

impl Config {
    /// No two hosts share an address.
    pub open spec fn wf(&self) -> bool {
        self.upstream.wf()
    }

    /// A configuration that declares nothing.
    pub fn new() -> (c: Config)
        ensures
            c.wf(),
            c.upstream.records@ == Seq::<Upstream>::empty(),
            c.mappings@ == Seq::<Mapping>::empty(),
    {
        Config { upstream: Registry::new(), mappings: Vec::new() }
    }

    /// Takes in what the directive `directive` of line `line` declares.
    ///
    /// A host is entered unless its address is declared already, which is an
    /// error at this line. A rule is added behind the rules before it.
    pub fn declare(&mut self, line: usize, directive: Directive) -> (r: Result<(), ParseError>)
        ensures
            old(self).wf() ==> final(self).wf(),
            match directive {
                Directive::Upstream(host) => if old(self).upstream@.dom().contains(host.address) {
                    &&& r == Err::<(), ParseError>(
                        ParseError { line, kind: ParseErrorKind::DuplicateUpstreamDirectives },
                    )
                    &&& final(self).upstream.records@ == old(self).upstream.records@
                    &&& final(self).mappings@ == old(self).mappings@
                } else {
                    &&& r is Ok
                    &&& final(self).upstream.records@ == old(self).upstream.records@.push(host)
                    &&& final(self).mappings@ == old(self).mappings@
                },
                Directive::Forward(mapping) => {
                    &&& r is Ok
                    &&& final(self).upstream.records@ == old(self).upstream.records@
                    &&& final(self).mappings@ == old(self).mappings@.push(mapping)
                },
                Directive::Skipped => {
                    &&& r is Ok
                    &&& final(self).upstream.records@ == old(self).upstream.records@
                    &&& final(self).mappings@ == old(self).mappings@
                },
            },
    {
        match directive {
            Directive::Upstream(host) => match self.upstream.insert(host) {
                Ok(_) => Ok(()),
                Err(RegistryError::DuplicateUpstream(_)) => Err(
                    ParseError { line, kind: ParseErrorKind::DuplicateUpstreamDirectives },
                ),
            },
            Directive::Forward(mapping) => {
                self.mappings.push(mapping);
                Ok(())
            },
            Directive::Skipped => Ok(()),
        }
    }

    /// Reads the words of line `line` and takes in what they declare.
    pub fn read_line(&mut self, line: usize, words: &[Word]) -> (r: Result<(), ParseError>)
        ensures
            old(self).wf() ==> final(self).wf(),
            match read_directive(words@) {
                Err(kind) => {
                    &&& r == Err::<(), ParseError>(ParseError { line, kind })
                    &&& final(self).upstream.records@ == old(self).upstream.records@
                    &&& final(self).mappings@ == old(self).mappings@
                },
                Ok(Directive::Upstream(host)) => if old(self).upstream@.dom().contains(
                    host.address,
                ) {
                    &&& r == Err::<(), ParseError>(
                        ParseError { line, kind: ParseErrorKind::DuplicateUpstreamDirectives },
                    )
                    &&& final(self).upstream.records@ == old(self).upstream.records@
                    &&& final(self).mappings@ == old(self).mappings@
                } else {
                    &&& r is Ok
                    &&& final(self).upstream.records@ == old(self).upstream.records@.push(host)
                    &&& final(self).mappings@ == old(self).mappings@
                },
                Ok(Directive::Forward(mapping)) => {
                    &&& r is Ok
                    &&& final(self).upstream.records@ == old(self).upstream.records@
                    &&& final(self).mappings@ == old(self).mappings@.push(mapping)
                },
                Ok(Directive::Skipped) => {
                    &&& r is Ok
                    &&& final(self).upstream.records@ == old(self).upstream.records@
                    &&& final(self).mappings@ == old(self).mappings@
                },
            },
    {
        match parse_directive(words) {
            Err(kind) => Err(ParseError { line, kind }),
            Ok(directive) => self.declare(line, directive),
        }
    }

    /// Makes a forwarder of what the configuration declares.
    pub fn into_app(self) -> (r: Result<App, AppError>)
        ensures
            match r {
                Ok(app) => {
                    &&& app.wf()
                    &&& app.upstream.records@ == self.upstream.records@
                    &&& app.mappings@ == self.mappings@
                },
                Err(AppError::DuplicateUpstream(ip)) => !self.wf() && exists|j: int|
                    crate::upstream::first_repeat(self.upstream.records@, j) && (
                    #[trigger] self.upstream.records@[j]).address == ip,
                Err(AppError::UnknownUpstream(ip)) => exists|k: int|
                    {
                        &&& 0 <= k < self.mappings@.len()
                        &&& forall|j: int|
                            0 <= j < k ==> crate::forwarder::admits(
                                self.upstream@,
                                #[trigger] self.mappings@[j],
                            )
                        &&& (#[trigger] self.mappings@[k]).kind.spec_upstream() == ip
                        &&& !self.upstream@.dom().contains(ip)
                    },
                Err(AppError::InvalidPortRange) => exists|k: int|
                    {
                        &&& 0 <= k < self.mappings@.len()
                        &&& forall|j: int|
                            0 <= j < k ==> crate::forwarder::admits(
                                self.upstream@,
                                #[trigger] self.mappings@[j],
                            )
                        &&& self.upstream@.dom().contains(
                            (#[trigger] self.mappings@[k]).kind.spec_upstream(),
                        )
                        &&& !self.mappings@[k].kind.wf()
                    },
                Err(AppError::NoMappings) => false,
            },
    {
        let ghost hosts = self.upstream;
        let r = App::new(self.upstream.records, self.mappings);
        proof {
            assert((Registry { records: hosts.records })@ =~= hosts@);
            match r {
                Err(AppError::DuplicateUpstream(ip)) => {
                    let j = choose|j: int|
                        crate::upstream::first_repeat(hosts.records@, j) && (
                        #[trigger] hosts.records@[j]).address == ip;
                    crate::upstream::lemma_first_repeat(hosts.records@, j);
                },
                _ => {},
            }
        }
        r
    }
}

/// A directive line, split into words.
#[derive(Clone, Debug)]
pub struct Statement {
    /// The number of the line in the text, counted from one.
    pub line: usize,
    /// The words of the line, with what they denote.
    pub words: Vec<Word>,
}

/// The hosts `hosts` and the rules `rules` as the directive lines `lines`
/// add to them, or the first error among the lines. The lines are read in
/// order, and reading stops at the first that cannot be read or that
/// declares a host a second time.
pub open spec fn read_config(lines: Seq<Statement>, hosts: Seq<Upstream>, rules: Seq<Mapping>)
    -> Result<(Seq<Upstream>, Seq<Mapping>), ParseError>
    decreases lines.len(),
{
    if lines.len() == 0 {
        Ok((hosts, rules))
    } else {
        match read_directive(lines[0].words@) {
            Err(kind) => Err(ParseError { line: lines[0].line, kind }),
            Ok(Directive::Upstream(host)) => if crate::upstream::known(hosts, host.address) {
                Err(
                    ParseError {
                        line: lines[0].line,
                        kind: ParseErrorKind::DuplicateUpstreamDirectives,
                    },
                )
            } else {
                read_config(lines.skip(1), hosts.push(host), rules)
            },
            Ok(Directive::Forward(mapping)) => read_config(
                lines.skip(1),
                hosts,
                rules.push(mapping),
            ),
            Ok(Directive::Skipped) => read_config(lines.skip(1), hosts, rules),
        }
    }
}

impl Config {
    /// Reads directive lines into the hosts and the rules that they declare.
    pub fn read(lines: &[Statement]) -> (r: Result<Config, ParseError>)
        ensures
            match read_config(lines@, Seq::empty(), Seq::empty()) {
                Ok((hosts, rules)) => r matches Ok(config) && config.wf()
                    && config.upstream.records@ == hosts && config.mappings@ == rules,
                Err(e) => r matches Err(err) && err == e,
            },
    {
        let n = lines.len();
        let mut config = Config::new();
        let mut i: usize = 0;
        assert(lines@.skip(0) =~= lines@);
        while i < n
            invariant
                n == lines@.len(),
                i <= n,
                config.wf(),
                read_config(lines@, Seq::empty(), Seq::empty()) == read_config(
                    lines@.skip(i as int),
                    config.upstream.records@,
                    config.mappings@,
                ),
            decreases n - i,
        {
            let ghost rest = lines@.skip(i as int);
            assert(rest[0] == lines@[i as int]);
            assert(rest.skip(1) =~= lines@.skip(i + 1));
            match config.read_line(lines[i].line, lines[i].words.as_slice()) {
                Err(e) => {
                    return Err(e);
                },
                Ok(_) => {},
            }
            i += 1;
        }
        Ok(config)
    }
}

} // verus!
