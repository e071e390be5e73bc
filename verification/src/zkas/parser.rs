//! The zk assembly parser: groups cleaned source lines into named contract
//! and circuit blocks.
//!
//! The accepted shape is a sequence of top-level openings — `contract NAME {`
//! or `circuit NAME {` followed by body lines up to a closing `}`, or a
//! `constant` declaration — with no duplicate block names.  Inputs outside
//! that shape are ruled out by precondition: the surrounding pipeline rejects
//! them before parsing.

use vstd::prelude::*;
use vstd::string::{StrSliceExecFns, StringExecFns};
use crate::zkas::state::{Constants, Line};

verus! {

/// The whitespace characters that trimming strips.
pub open spec fn is_space(c: char) -> bool {
    c == ' ' || c == '\t' || c == '\n' || c == '\r' || c == '\u{b}' || c == '\u{c}'
}

/// Number of leading whitespace characters.
pub open spec fn count_leading(s: Seq<char>) -> nat
    decreases s.len(),
{
    if s.len() == 0 || !is_space(s[0]) {
        0
    } else {
        1 + count_leading(s.drop_first())
    }
}

/// Number of trailing whitespace characters.
pub open spec fn count_trailing(s: Seq<char>) -> nat
    decreases s.len(),
{
    if s.len() == 0 || !is_space(s[s.len() - 1]) {
        0
    } else {
        1 + count_trailing(s.drop_last())
    }
}

/// The text with whitespace stripped from both sides.
pub open spec fn trimmed_spec(s: Seq<char>) -> Seq<char> {
    if count_leading(s) == s.len() {
        Seq::empty()
    } else {
        s.subrange(count_leading(s) as int, s.len() - count_trailing(s))
    }
}

/// Index of the first comment mark, or the length if there is none.
pub open spec fn comment_idx(s: Seq<char>) -> nat
    decreases s.len(),
{
    if s.len() == 0 || s[0] == '#' {
        0
    } else {
        1 + comment_idx(s.drop_first())
    }
}

/// Index of the first space, or the length if there is none.
pub open spec fn first_space(s: Seq<char>) -> nat
    decreases s.len(),
{
    if s.len() == 0 || s[0] == ' ' {
        0
    } else {
        1 + first_space(s.drop_first())
    }
}

/// The text split at every space; consecutive spaces give empty tokens.
pub open spec fn split_spaces(s: Seq<char>) -> Seq<Seq<char>>
    decreases s.len(),
{
    let i = first_space(s);
    if i >= s.len() {
        seq![s]
    } else {
        seq![s.take(i as int)] + split_spaces(s.skip(i as int + 1))
    }
}

proof fn lemma_count_leading_at(s: Seq<char>, i: int)
    requires
        0 <= i <= s.len(),
        forall|j: int| 0 <= j < i ==> is_space(#[trigger] s[j]),
        i < s.len() ==> !is_space(s[i]),
    ensures
        count_leading(s) == i,
    decreases i,
{
    if i > 0 {
        assert(forall|j: int| 0 <= j < s.drop_first().len() ==> s.drop_first()[j] == s[j + 1]);
        lemma_count_leading_at(s.drop_first(), i - 1);
    }
}

proof fn lemma_count_trailing_at(s: Seq<char>, i: int)
    requires
        0 <= i <= s.len(),
        forall|j: int| s.len() - i <= j < s.len() ==> is_space(#[trigger] s[j]),
        i < s.len() ==> !is_space(s[s.len() - 1 - i]),
    ensures
        count_trailing(s) == i,
    decreases i,
{
    if i > 0 {
        assert(forall|j: int| 0 <= j < s.drop_last().len() ==> s.drop_last()[j] == s[j]);
        lemma_count_trailing_at(s.drop_last(), i - 1);
    }
}

proof fn lemma_comment_idx_at(s: Seq<char>, i: int)
    requires
        0 <= i <= s.len(),
        forall|j: int| 0 <= j < i ==> (#[trigger] s[j]) != '#',
        i < s.len() ==> s[i] == '#',
    ensures
        comment_idx(s) == i,
    decreases i,
{
    if i > 0 {
        assert(forall|j: int| 0 <= j < s.drop_first().len() ==> s.drop_first()[j] == s[j + 1]);
        lemma_comment_idx_at(s.drop_first(), i - 1);
    }
}

proof fn lemma_first_space_at(s: Seq<char>, i: int)
    requires
        0 <= i <= s.len(),
        forall|j: int| 0 <= j < i ==> (#[trigger] s[j]) != ' ',
        i < s.len() ==> s[i] == ' ',
    ensures
        first_space(s) == i,
    decreases i,
{
    if i > 0 {
        assert(forall|j: int| 0 <= j < s.drop_first().len() ==> s.drop_first()[j] == s[j + 1]);
        lemma_first_space_at(s.drop_first(), i - 1);
    }
}

/// Whether `c` is stripped by trimming.
pub fn is_space_char(c: char) -> (r: bool)
    ensures
        r == is_space(c),
{
    c == ' ' || c == '\t' || c == '\n' || c == '\r' || c == '\u{b}' || c == '\u{c}'
}

/// Cleans one raw source line the way the assembler reads it: whitespace
/// trimmed from both sides, everything from the first `#` on dropped, and
/// the rest split at single spaces.  A line that is empty after cleaning
/// yields nothing; otherwise the tokens, the trimmed original text and the
/// line number make a `Line`.
#[verifier::loop_isolation(false)]
pub fn clean_line(raw: &str, number: u32) -> (r: Option<Line>)
    requires
        vstd::string::is_ascii(raw),
    ensures
        ({
            let t = trimmed_spec(raw@);
            let code = t.take(comment_idx(t) as int);
            &&& (code.len() == 0 ==> r is None)
            &&& (code.len() > 0 ==> (r matches Some(l) && {
                &&& l.number == number
                &&& l.orig@ == t
                &&& line_model(l) == split_spaces(code)
            }))
        }),
{
    let n = raw.unicode_len();
    let mut lead: usize = 0;
    while lead < n && is_space_char(raw.get_char(lead))
        invariant
            lead <= n,
            forall|j: int| 0 <= j < lead ==> is_space(#[trigger] raw@[j]),
        decreases n - lead,
    {
        lead = lead + 1;
    }
    proof {
        lemma_count_leading_at(raw@, lead as int);
    }
    if lead == n {
        proof {
            assert(trimmed_spec(raw@) =~= Seq::<char>::empty());
            assert(comment_idx(trimmed_spec(raw@)) == 0);
            assert(trimmed_spec(raw@).take(0) =~= Seq::<char>::empty());
        }
        return None;
    }
    let mut trail: usize = 0;
    loop
        invariant
            trail <= n - 1 - lead,
            lead < n,
            !is_space(raw@[lead as int]),
            forall|j: int| n - trail <= j < n ==> is_space(#[trigger] raw@[j]),
        decreases n - trail,
    {
        if !is_space_char(raw.get_char(n - 1 - trail)) {
            break ;
        }
        proof {
            assert(n - 1 - trail != lead);
        }
        trail = trail + 1;
    }
    proof {
        lemma_count_trailing_at(raw@, trail as int);
    }
    let trimmed = raw.substring_ascii(lead, n - trail);
    let ghost t = trimmed_spec(raw@);
    proof {
        assert(trimmed@ =~= t);
    }
    let tlen = n - trail - lead;
    let mut h: usize = 0;
    while h < tlen && trimmed.get_char(h) != '#'
        invariant
            h <= tlen,
            forall|j: int| 0 <= j < h ==> (#[trigger] trimmed@[j]) != '#',
        decreases tlen - h,
    {
        h = h + 1;
    }
    proof {
        lemma_comment_idx_at(trimmed@, h as int);
    }
    if h == 0 {
        proof {
            assert(t.take(0) =~= Seq::<char>::empty());
        }
        return None;
    }
    let code = trimmed.substring_ascii(0, h);
    let ghost cs = t.take(comment_idx(t) as int);
    proof {
        assert(code@ =~= cs);
    }
    let mut tokens: Vec<String> = Vec::new();
    let mut start: usize = 0;
    let mut i: usize = 0;
    proof {
        assert(cs.skip(0) =~= cs);
        assert(Seq::new(tokens@.len(), |k: int| tokens@[k]@) =~= Seq::<Seq<char>>::empty());
        assert(Seq::<Seq<char>>::empty() + split_spaces(cs) =~= split_spaces(cs));
    }
    while i < h
        invariant
            start <= i <= h,
            h == code@.len(),
            code@ == cs,
            forall|j: int| start <= j < i ==> (#[trigger] cs[j]) != ' ',
            split_spaces(cs) == Seq::new(tokens@.len(), |k: int| tokens@[k]@) + split_spaces(
                cs.skip(start as int),
            ),
        decreases h - i,
    {
        if code.get_char(i) == ' ' {
            let tok = code.substring_ascii(start, i);
            let ghost before = Seq::new(tokens@.len(), |k: int| tokens@[k]@);
            tokens.push(tok.to_owned());
            proof {
                let rem = cs.skip(start as int);
                assert(forall|j: int| 0 <= j < rem.len() ==> rem[j] == cs[start as int + j]);
                lemma_first_space_at(rem, i - start);
                assert(rem.take(i - start) =~= cs.subrange(start as int, i as int));
                assert(rem.skip(i - start + 1) =~= cs.skip(i as int + 1));
                assert(split_spaces(rem) == seq![cs.subrange(start as int, i as int)]
                    + split_spaces(cs.skip(i as int + 1)));
                assert(Seq::new(tokens@.len(), |k: int| tokens@[k]@) =~= before.push(tok@));
                assert(Seq::new(tokens@.len(), |k: int| tokens@[k]@) + split_spaces(
                    cs.skip(i as int + 1),
                ) =~= before + split_spaces(cs.skip(start as int)));
            }
            start = i + 1;
        }
        i = i + 1;
    }
    let tok = code.substring_ascii(start, h);
    let ghost before = Seq::new(tokens@.len(), |k: int| tokens@[k]@);
    tokens.push(tok.to_owned());
    proof {
        let rem = cs.skip(start as int);
        assert(forall|j: int| 0 <= j < rem.len() ==> rem[j] == cs[start as int + j]);
        lemma_first_space_at(rem, rem.len() as int);
        assert(split_spaces(rem) == seq![rem]);
        assert(rem =~= cs.subrange(start as int, h as int));
        assert(Seq::new(tokens@.len(), |k: int| tokens@[k]@) =~= before.push(tok@));
        assert(Seq::new(tokens@.len(), |k: int| tokens@[k]@) =~= before + split_spaces(rem));
    }
    let line = Line { tokens, orig: trimmed.to_owned(), number };
    proof {
        assert(line_model(line) =~= Seq::new(line.tokens@.len(), |k: int| line.tokens@[k]@));
    }
    Some(line)
}

/// Ghost form of a line: its token texts.
pub type LineModel = Seq<Seq<char>>;

pub open spec fn line_model(l: Line) -> LineModel {
    Seq::new(l.tokens@.len(), |i: int| l.tokens@[i]@)
}

pub open spec fn lines_model(v: Seq<Line>) -> Seq<LineModel> {
    Seq::new(v.len(), |i: int| line_model(v[i]))
}

/// Ghost form of a named block: its name and its body lines.
pub type BlockModel = (Seq<char>, Seq<LineModel>);

pub open spec fn has_block(blocks: Seq<BlockModel>, name: Seq<char>) -> bool {
    exists|j: int| 0 <= j < blocks.len() && (#[trigger] blocks[j]).0 == name
}

/// The index of the line closing a block whose body starts at `i`; `None`
/// when a body line is empty or the block never closes.
pub open spec fn block_end(lines: Seq<LineModel>, i: int) -> Option<int>
    decreases lines.len() - i,
{
    if i < 0 || i >= lines.len() {
        None
    } else if lines[i].len() == 0 {
        None
    } else if lines[i][0] == "}"@ {
        Some(i)
    } else {
        block_end(lines, i + 1)
    }
}

pub proof fn lemma_block_end_range(lines: Seq<LineModel>, i: int)
    requires
        block_end(lines, i) is Some,
    ensures
        i <= block_end(lines, i)->Some_0 < lines.len(),
    decreases lines.len() - i,
{
    if 0 <= i < lines.len() && lines[i].len() != 0 && lines[i][0] != "}"@ {
        lemma_block_end_range(lines, i + 1);
    }
}

/// One step of the grammar: what the parser accepts from line `i` on, given
/// the blocks already collected.
pub open spec fn spec_parse(
    lines: Seq<LineModel>,
    i: int,
    contracts: Seq<BlockModel>,
    circuits: Seq<BlockModel>,
) -> Option<(Seq<BlockModel>, Seq<BlockModel>)>
    decreases lines.len() - i,
{
    if i < 0 {
        None
    } else if i >= lines.len() {
        Some((contracts, circuits))
    } else if lines[i].len() == 0 {
        None
    } else if lines[i][0] == "contract"@ {
        if lines[i].len() != 3 || lines[i][2] != "{"@ {
            None
        } else if has_block(contracts, lines[i][1]) {
            None
        } else {
            match block_end(lines, i + 1) {
                Some(e) => {
                    if i < e < lines.len() {
                        spec_parse(
                            lines,
                            e + 1,
                            contracts.push((lines[i][1], lines.subrange(i + 1, e))),
                            circuits,
                        )
                    } else {
                        None
                    }
                },
                None => None,
            }
        }
    } else if lines[i][0] == "circuit"@ {
        if lines[i].len() != 3 || lines[i][2] != "{"@ {
            None
        } else if has_block(circuits, lines[i][1]) {
            None
        } else {
            match block_end(lines, i + 1) {
                Some(e) => {
                    if i < e < lines.len() {
                        spec_parse(
                            lines,
                            e + 1,
                            contracts,
                            circuits.push((lines[i][1], lines.subrange(i + 1, e))),
                        )
                    } else {
                        None
                    }
                },
                None => None,
            }
        }
    } else if lines[i][0] == "constant"@ {
        spec_parse(lines, i + 1, contracts, circuits)
    } else {
        None
    }
}

/// How an executable block relates to its ghost form.
pub open spec fn block_matches(b: (String, Vec<Line>), m: BlockModel) -> bool {
    &&& b.0@ == m.0
    &&& lines_model(b.1@) == m.1
}

pub open spec fn blocks_match(v: Seq<(String, Vec<Line>)>, ms: Seq<BlockModel>) -> bool {
    &&& v.len() == ms.len()
    &&& forall|j: int| 0 <= j < ms.len() ==> block_matches(#[trigger] v[j], ms[j])
}

/// The ghost form of collected blocks.
pub open spec fn blocks_model(v: Seq<(String, Vec<Line>)>) -> Seq<BlockModel> {
    Seq::new(v.len(), |j: int| ((v[j].0@, lines_model(v[j].1@))))
}

/// The parsed source: named contract and circuit blocks, and the constant
/// table.
#[derive(Debug)]
pub struct Syntax {
    pub contracts: Vec<(String, Vec<Line>)>,
    pub circuits: Vec<(String, Vec<Line>)>,
    pub constants: Constants,
}

impl Syntax {
    /// An empty parse result.
    pub fn new() -> (s: Syntax)
        ensures
            s.contracts@.len() == 0,
            s.circuits@.len() == 0,
            s.constants.table@.len() == 0,
            s.constants.map@.len() == 0,
    {
        Syntax { contracts: Vec::new(), circuits: Vec::new(), constants: Constants::new() }
    }

    /// Collects the body of the block opened at line `open_idx`, leaving `i`
    /// on the line after the closing brace.
    #[verifier::loop_isolation(false)]
    fn collect_block(lines: &Vec<Line>, i: &mut usize) -> (body: Vec<Line>)
        requires
            block_end(lines_model(lines@), *old(i) as int) is Some,
        ensures
            ({
                let e = block_end(lines_model(lines@), *old(i) as int)->Some_0;
                &&& lines_model(body@) == lines_model(lines@).subrange(*old(i) as int, e)
                &&& *final(i) == e + 1
            }),
    {
        let ghost lm = lines_model(lines@);
        let ghost e = block_end(lm, *i as int)->Some_0;
        proof {
            lemma_block_end_range(lm, *i as int);
        }
        let close = String::from_str("}");
        let mut body: Vec<Line> = Vec::new();
        let ghost start = *i as int;
        loop
            invariant
                start <= *i as int <= e < lines@.len(),
                block_end(lm, *i as int) == Some(e),
                lines_model(body@) == lm.subrange(start, *i as int),
            decreases e - *i as int,
        {
            proof {
                assert(lm[*i as int] == line_model(lines@[*i as int]));
            }
            let line = &lines[*i];
            proof {
                assert(line_model(*line).len() == line.tokens@.len());
                if line.tokens@.len() == 0 {
                    assert(block_end(lm, *i as int) is None);
                    assert(false);
                }
            }
            if line.tokens[0] == close {
                proof {
                    assert(line_model(*line)[0] == "}"@);
                    assert(block_end(lm, *i as int) == Some(*i as int));
                    assert(*i < lines.len());
                }
                *i = *i + 1;
                return body;
            }
            proof {
                assert(line_model(*line)[0] != "}"@);
                assert(block_end(lm, *i as int) == block_end(lm, *i as int + 1));
                lemma_block_end_range(lm, *i as int + 1);
                assert(*i < lines.len());
            }
            body.push(line.duplicate());
            *i = *i + 1;
            proof {
                assert(lines_model(body@) =~= lm.subrange(start, *i as int)) by {
                    assert(forall|j: int|
                        0 <= j < body@.len() - 1 ==> #[trigger] lines_model(body@)[j]
                            == lines_model(body@.drop_last())[j]);
                    assert(lines_model(body@)[body@.len() - 1] =~= line_model(
                        lines@[*i as int - 1],
                    ));
                };
            }
        }
    }

    /// Enters one contract block.
    #[verifier::loop_isolation(false)]
    fn parse_contract(&mut self, line: &Line, lines: &Vec<Line>, i: &mut usize)
        requires
            line_model(*line).len() == 3,
            line_model(*line)[0] == "contract"@,
            line_model(*line)[2] == "{"@,
            !has_block(blocks_model(old(self).contracts@), line_model(*line)[1]),
            block_end(lines_model(lines@), *old(i) as int) is Some,
        ensures
            ({
                let e = block_end(lines_model(lines@), *old(i) as int)->Some_0;
                &&& blocks_model(final(self).contracts@) == blocks_model(
                    old(self).contracts@,
                ).push(
                    (
                        line_model(*line)[1],
                        lines_model(lines@).subrange(*old(i) as int, e),
                    ),
                )
                &&& *final(i) == e + 1
            }),
            final(self).circuits == old(self).circuits,
            final(self).constants == old(self).constants,
    {
        let name = line.tokens[1].clone();
        let body = Self::collect_block(lines, i);
        self.contracts.push((name, body));
        proof {
            assert(blocks_model(self.contracts@) =~~= blocks_model(old(self).contracts@).push(
                (
                    line_model(*line)[1],
                    lines_model(lines@).subrange(
                        *old(i) as int,
                        block_end(lines_model(lines@), *old(i) as int)->Some_0,
                    ),
                ),
            ));
        }
    }

    /// Enters one circuit block.
    #[verifier::loop_isolation(false)]
    fn parse_circuit(&mut self, line: &Line, lines: &Vec<Line>, i: &mut usize)
        requires
            line_model(*line).len() == 3,
            line_model(*line)[0] == "circuit"@,
            line_model(*line)[2] == "{"@,
            !has_block(blocks_model(old(self).circuits@), line_model(*line)[1]),
            block_end(lines_model(lines@), *old(i) as int) is Some,
        ensures
            ({
                let e = block_end(lines_model(lines@), *old(i) as int)->Some_0;
                &&& blocks_model(final(self).circuits@) == blocks_model(old(self).circuits@).push(
                    (
                        line_model(*line)[1],
                        lines_model(lines@).subrange(*old(i) as int, e),
                    ),
                )
                &&& *final(i) == e + 1
            }),
            final(self).contracts == old(self).contracts,
            final(self).constants == old(self).constants,
    {
        let name = line.tokens[1].clone();
        let body = Self::collect_block(lines, i);
        self.circuits.push((name, body));
        proof {
            assert(blocks_model(self.circuits@) =~~= blocks_model(old(self).circuits@).push(
                (
                    line_model(*line)[1],
                    lines_model(lines@).subrange(
                        *old(i) as int,
                        block_end(lines_model(lines@), *old(i) as int)->Some_0,
                    ),
                ),
            ));
        }
    }

    /// Checks one constant declaration; nothing is recorded yet.
    fn parse_constant(&mut self, line: &Line)
        requires
            line_model(*line).len() > 0,
            line_model(*line)[0] == "constant"@,
        ensures
            *final(self) == *old(self),
    {
    }
}

/// Groups the cleaned source lines into named blocks.  The precondition is
/// the grammar itself: parsing is total on every source the grammar accepts.
#[verifier::loop_isolation(false)]
pub fn parse_lines(lines: Vec<Line>) -> (syntax: Syntax)
    requires
        spec_parse(lines_model(lines@), 0, Seq::empty(), Seq::empty()) is Some,
    ensures
        ({
            let r = spec_parse(lines_model(lines@), 0, Seq::empty(), Seq::empty())->Some_0;
            &&& blocks_match(syntax.contracts@, r.0)
            &&& blocks_match(syntax.circuits@, r.1)
            &&& syntax.constants.table@.len() == 0
            &&& syntax.constants.map@.len() == 0
        }),
{
    let ghost lm = lines_model(lines@);
    let ghost full = spec_parse(lm, 0, Seq::empty(), Seq::empty());
    let kw_contract = String::from_str("contract");
    let kw_circuit = String::from_str("circuit");
    let kw_constant = String::from_str("constant");
    let mut syntax = Syntax::new();
    let mut i: usize = 0;
    proof {
        assert(blocks_model(syntax.contracts@) =~= Seq::<BlockModel>::empty());
        assert(blocks_model(syntax.circuits@) =~= Seq::<BlockModel>::empty());
    }
    while i < lines.len()
        invariant
            i <= lines@.len(),
            blocks_match(syntax.contracts@, blocks_model(syntax.contracts@)),
            blocks_match(syntax.circuits@, blocks_model(syntax.circuits@)),
            syntax.constants.table@.len() == 0,
            syntax.constants.map@.len() == 0,
            full == spec_parse(
                lm,
                i as int,
                blocks_model(syntax.contracts@),
                blocks_model(syntax.circuits@),
            ),
        decreases lines@.len() - i,
    {
        proof {
            assert(lm[i as int] == line_model(lines@[i as int]));
        }
        let line = &lines[i];
        proof {
            if line.tokens@.len() == 0 {
                assert(full is None);
                assert(false);
            }
        }
        if line.tokens[0] == kw_contract {
            proof {
                assert(line_model(*line)[0] == "contract"@);
                if line.tokens@.len() != 3 {
                    assert(full is None);
                    assert(false);
                }
                if line_model(*line)[2] != "{"@ {
                    assert(full is None);
                    assert(false);
                }
                if has_block(blocks_model(syntax.contracts@), line_model(*line)[1]) {
                    assert(full is None);
                    assert(false);
                }
                if block_end(lm, i as int + 1) is None {
                    assert(full is None);
                    assert(false);
                }
                lemma_block_end_range(lm, i as int + 1);
            }
            let ghost before = blocks_model(syntax.contracts@);
            let mut j = i + 1;
            syntax.parse_contract(line, &lines, &mut j);
            i = j;
        } else if line.tokens[0] == kw_circuit {
            proof {
                assert(line_model(*line)[0] == "circuit"@);
                assert(line_model(*line)[0] != "contract"@) by {
                    reveal_strlit("contract");
                    reveal_strlit("circuit");
                };
                if line.tokens@.len() != 3 {
                    assert(full is None);
                    assert(false);
                }
                if line_model(*line)[2] != "{"@ {
                    assert(full is None);
                    assert(false);
                }
                if has_block(blocks_model(syntax.circuits@), line_model(*line)[1]) {
                    assert(full is None);
                    assert(false);
                }
                if block_end(lm, i as int + 1) is None {
                    assert(full is None);
                    assert(false);
                }
                lemma_block_end_range(lm, i as int + 1);
            }
            let mut j = i + 1;
            syntax.parse_circuit(line, &lines, &mut j);
            i = j;
        } else if line.tokens[0] == kw_constant {
            proof {
                assert(line_model(*line)[0] == "constant"@);
                assert(line_model(*line)[0] != "contract"@) by {
                    reveal_strlit("contract");
                    reveal_strlit("constant");
                };
                assert(line_model(*line)[0] != "circuit"@) by {
                    reveal_strlit("circuit");
                    reveal_strlit("constant");
                };
            }
            syntax.parse_constant(line);
            i = i + 1;
        } else {
            proof {
                assert(line_model(*line)[0] != "contract"@);
                assert(line_model(*line)[0] != "circuit"@);
                assert(line_model(*line)[0] != "constant"@);
                assert(full is None);
                assert(false);
            }
        }
    }
    syntax
}

} // verus!
