use crate::byte_code::{ByteCode, OpCode};
use vstd::prelude::*;
use vstd::string::StringSliceAdditionalSpecFns;

verus! {

/// Lexical class of a token.
#[derive(Debug, Clone, Copy, PartialEq, Eq, Structural)]
pub enum TokenType {
    Whitespace,
    Command,
    Label,
    Comment,
}

/// One lexical token: its class, the byte index in the source where it
/// begins, and the exact source text it covers.
#[derive(Debug, Clone)]
pub struct Token {
    pub token_type: TokenType,
    pub index: usize,
    pub value: String,
}

/// An error found while tokenizing or parsing, carrying the offending
/// source offset as a byte index.
#[derive(Debug, Clone)]
pub struct SyntaxError {
    pub index: usize,
    pub message: String,
}

pub type ParseResult<T> = Result<T, SyntaxError>;

/// Mathematical view of a token: class, starting byte offset, text.
pub type TokenV = (TokenType, int, Seq<char>);

pub open spec fn token_v(t: Token) -> TokenV {
    (t.token_type, t.index as int, t.value@)
}

/// The five command letters of the language.
pub open spec fn is_command_char(c: char) -> bool {
    c == 'S' || c == 'H' || c == 'R' || c == 'E' || c == 'K'
}

/// The whitespace characters the tokenizer accepts: the Unicode
/// white-space set.
pub open spec fn is_whitespace_char(c: char) -> bool {
    c == ' ' || c == '\t' || c == '\n' || c == '\r' || c == '\u{b}' || c == '\u{c}' || c
        == '\u{85}' || c == '\u{a0}' || c == '\u{1680}' || (c as u32 >= 0x2000 && c as u32
        <= 0x200a) || c == '\u{2028}' || c == '\u{2029}' || c == '\u{202f}' || c == '\u{205f}'
        || c == '\u{3000}'
}

/// First position at or after `i` that does not hold a command letter.
pub open spec fn command_run_end(s: Seq<char>, i: int) -> int
    decreases s.len() - i when 0 <= i <= s.len()
{
    if i < s.len() && is_command_char(s[i]) {
        command_run_end(s, i + 1)
    } else {
        i
    }
}

/// First position at or after `i` that does not hold whitespace.
pub open spec fn whitespace_run_end(s: Seq<char>, i: int) -> int
    decreases s.len() - i when 0 <= i <= s.len()
{
    if i < s.len() && is_whitespace_char(s[i]) {
        whitespace_run_end(s, i + 1)
    } else {
        i
    }
}

/// One past the first newline at or after `i`, or the end of the text if no
/// newline follows.
pub open spec fn line_end(s: Seq<char>, i: int) -> int
    decreases s.len() - i when 0 <= i <= s.len()
{
    if i < s.len() {
        if s[i] == '\n' {
            i + 1
        } else {
            line_end(s, i + 1)
        }
    } else {
        i
    }
}

/// End of a label token starting at `i`, if one matches there: a `!`, one or
/// more command letters, then a closing `!`.
pub open spec fn label_token_end(s: Seq<char>, i: int) -> Option<int> {
    if 0 <= i < s.len() && s[i] == '!' {
        let e = command_run_end(s, i + 1);
        if e > i + 1 && e < s.len() && s[e] == '!' {
            Some(e + 1)
        } else {
            None
        }
    } else {
        None
    }
}

/// The token recognized at position `i`, as its class and end position.
/// The four patterns are tried in strict priority order: label, command,
/// whitespace, comment. `None` means no token matches at `i`.
pub open spec fn next_token_kind_end(s: Seq<char>, i: int) -> Option<(TokenType, int)> {
    if label_token_end(s, i) is Some {
        Some((TokenType::Label, label_token_end(s, i)->Some_0))
    } else if 0 <= i < s.len() && is_command_char(s[i]) {
        Some((TokenType::Command, i + 1))
    } else if 0 <= i < s.len() && is_whitespace_char(s[i]) {
        Some((TokenType::Whitespace, whitespace_run_end(s, i)))
    } else if 0 <= i < s.len() && s[i] == '#' {
        Some((TokenType::Comment, line_end(s, i)))
    } else {
        None
    }
}

proof fn lemma_command_run_end(s: Seq<char>, i: int)
    requires
        0 <= i <= s.len(),
    ensures
        i <= command_run_end(s, i) <= s.len(),
    decreases s.len() - i,
{
    if i < s.len() && is_command_char(s[i]) {
        lemma_command_run_end(s, i + 1);
    }
}

proof fn lemma_whitespace_run_end(s: Seq<char>, i: int)
    requires
        0 <= i <= s.len(),
    ensures
        i <= whitespace_run_end(s, i) <= s.len(),
    decreases s.len() - i,
{
    if i < s.len() && is_whitespace_char(s[i]) {
        lemma_whitespace_run_end(s, i + 1);
    }
}

proof fn lemma_line_end(s: Seq<char>, i: int)
    requires
        0 <= i <= s.len(),
    ensures
        i <= line_end(s, i) <= s.len(),
    decreases s.len() - i,
{
    if i < s.len() && s[i] != '\n' {
        lemma_line_end(s, i + 1);
    }
}

/// Every recognized token covers at least one character and ends within the
/// text.
pub proof fn lemma_next_token_bounds(s: Seq<char>, i: int)
    requires
        0 <= i <= s.len(),
        next_token_kind_end(s, i) is Some,
    ensures
        i < next_token_kind_end(s, i)->Some_0.1 <= s.len(),
{
    if 0 <= i < s.len() {
        lemma_command_run_end(s, i + 1);
        lemma_whitespace_run_end(s, i + 1);
        lemma_line_end(s, i + 1);
    }
}

/// Token and error offsets count bytes: the byte offset of character
/// position `i` in `s` is the UTF-8 length of the text before it.
pub open spec fn byte_offset(s: Seq<char>, i: int) -> int {
    vstd::utf8::encode_utf8(s.take(i)).len() as int
}

proof fn lemma_encode_utf8_concat(a: Seq<char>, b: Seq<char>)
    ensures
        vstd::utf8::encode_utf8(a + b) == vstd::utf8::encode_utf8(a) + vstd::utf8::encode_utf8(
            b,
        ),
    decreases a.len(),
{
    if a.len() == 0 {
        assert(a + b =~= b);
        assert(vstd::utf8::encode_utf8(a) + vstd::utf8::encode_utf8(b)
            =~= vstd::utf8::encode_utf8(b));
    } else {
        assert((a + b)[0] == a[0]);
        assert((a + b).drop_first() =~= a.drop_first() + b);
        lemma_encode_utf8_concat(a.drop_first(), b);
        assert(vstd::utf8::encode_scalar(a[0] as u32) + (vstd::utf8::encode_utf8(
            a.drop_first(),
        ) + vstd::utf8::encode_utf8(b)) =~= (vstd::utf8::encode_scalar(a[0] as u32)
            + vstd::utf8::encode_utf8(a.drop_first())) + vstd::utf8::encode_utf8(b));
    }
}

/// Position `e` lies the UTF-8 length of `s[i..e)` beyond position `i`, and
/// no byte offset passes the whole text's UTF-8 length.
proof fn lemma_byte_offset_step(s: Seq<char>, i: int, e: int)
    requires
        0 <= i <= e <= s.len(),
    ensures
        byte_offset(s, e) == byte_offset(s, i) + vstd::utf8::encode_utf8(
            s.subrange(i, e),
        ).len(),
        byte_offset(s, e) <= vstd::utf8::encode_utf8(s).len(),
{
    lemma_encode_utf8_concat(s.take(i), s.subrange(i, e));
    assert(s.take(i) + s.subrange(i, e) =~= s.take(e));
    lemma_encode_utf8_concat(s.take(e), s.skip(e));
    assert(s.take(e) + s.skip(e) =~= s);
}

/// The whole tokenization of `s` from position `i` on: the token views in
/// order, or the byte offset at which no pattern matches.
pub open spec fn spec_tokenize(s: Seq<char>, i: int) -> Result<Seq<TokenV>, int>
    decreases s.len() - i when 0 <= i <= s.len() via spec_tokenize_decreases
{
    if i >= s.len() {
        Ok(Seq::empty())
    } else {
        match next_token_kind_end(s, i) {
            None => Err(byte_offset(s, i)),
            Some((tt, e)) => match spec_tokenize(s, e) {
                Err(j) => Err(j),
                Ok(rest) => Ok(seq![(tt, byte_offset(s, i), s.subrange(i, e))] + rest),
            },
        }
    }
}

#[via_fn]
proof fn spec_tokenize_decreases(s: Seq<char>, i: int) {
    if i < s.len() && next_token_kind_end(s, i) is Some {
        lemma_next_token_bounds(s, i);
    }
}

/// Concatenation of the texts of a sequence of token views.
pub open spec fn concat_token_text(tokens: Seq<TokenV>) -> Seq<char>
    decreases tokens.len(),
{
    if tokens.len() == 0 {
        Seq::empty()
    } else {
        tokens[0].2 + concat_token_text(tokens.drop_first())
    }
}

proof fn lemma_tokenize_lossless_from(s: Seq<char>, i: int, tokens: Seq<TokenV>)
    requires
        0 <= i <= s.len(),
        spec_tokenize(s, i) == Ok::<Seq<TokenV>, int>(tokens),
    ensures
        concat_token_text(tokens) == s.subrange(i, s.len() as int),
    decreases s.len() - i,
{
    if i >= s.len() {
        assert(concat_token_text(tokens) =~= s.subrange(i, s.len() as int));
    } else {
        let (tt, e) = next_token_kind_end(s, i)->Some_0;
        lemma_next_token_bounds(s, i);
        let rest = spec_tokenize(s, e)->Ok_0;
        lemma_tokenize_lossless_from(s, e, rest);
        assert(tokens.drop_first() =~= rest);
        assert(concat_token_text(tokens) =~= s.subrange(i, s.len() as int));
    }
}

/// Lossless tokenization: for any source the tokenizer accepts, the token
/// texts concatenated in order reproduce the source exactly.
pub proof fn lemma_tokenize_lossless(s: Seq<char>, tokens: Seq<TokenV>)
    requires
        spec_tokenize(s, 0) == Ok::<Seq<TokenV>, int>(tokens),
    ensures
        concat_token_text(tokens) == s,
{
    lemma_tokenize_lossless_from(s, 0, tokens);
    assert(s.subrange(0, s.len() as int) =~= s);
}

/// A tokenization never holds more tokens than the source holds characters.
pub proof fn lemma_tokenize_count(s: Seq<char>, i: int, tokens: Seq<TokenV>)
    requires
        0 <= i <= s.len(),
        spec_tokenize(s, i) == Ok::<Seq<TokenV>, int>(tokens),
    ensures
        tokens.len() <= s.len() - i,
    decreases s.len() - i,
{
    if i < s.len() {
        let (tt, e) = next_token_kind_end(s, i)->Some_0;
        lemma_next_token_bounds(s, i);
        lemma_tokenize_count(s, e, spec_tokenize(s, e)->Ok_0);
    }
}

/// The tokenizer. It holds no state; tokenization is a pure function of the
/// source text.
pub struct Tokenizer {}

impl Tokenizer {
    pub fn new() -> (t: Tokenizer) {
        Tokenizer {  }
    }

    /// Splits `code` into tokens, or reports the first offset at which no
    /// token pattern matches.
    pub fn tokenize(&self, code: &str) -> (r: ParseResult<Vec<Token>>)
        ensures
            match r {
                Ok(tokens) => spec_tokenize(code@, 0) == Ok::<Seq<TokenV>, int>(
                    tokens@.map_values(|t: Token| token_v(t)),
                ),
                Err(e) => spec_tokenize(code@, 0) == Err::<Seq<TokenV>, int>(e.index as int)
                    && e.message@ == "Invalid Token"@,
            },
    {
        let ghost s = code@;
        let mut tokens: Vec<Token> = Vec::new();
        let len = code.unicode_len();
        let total_bytes = code.as_bytes().len();
        let mut index: usize = 0;
        let mut byte_index: usize = 0;

        proof {
            assert(s.take(0) =~= Seq::<char>::empty());
            assert(code.spec_bytes() == vstd::utf8::encode_utf8(s));
        }
        while index < len
            invariant
                index <= len == s.len(),
                code@ == s,
                total_bytes == vstd::utf8::encode_utf8(s).len(),
                byte_index as int == byte_offset(s, index as int),
                spec_tokenize(s, 0) == (match spec_tokenize(s, index as int) {
                    Ok(rest) => Ok::<Seq<TokenV>, int>(
                        tokens@.map_values(|t: Token| token_v(t)) + rest,
                    ),
                    Err(j) => Err::<Seq<TokenV>, int>(j),
                }),
            decreases len - index,
        {
            let token = match self.next_token(index, byte_index, code) {
                Ok(t) => t,
                Err(e) => {
                    return Err(e);
                },
            };
            proof {
                lemma_next_token_bounds(s, index as int);
            }
            let end = index + token.value.unicode_len();
            proof {
                lemma_byte_offset_step(s, index as int, end as int);
                let tv = token_v(token);
                let prefix = tokens@.map_values(|t: Token| token_v(t));
                assert(tokens@.push(token).map_values(|t: Token| token_v(t)) =~= prefix.push(
                    tv,
                ));
                assert(seq![
                    (
                        token.token_type,
                        byte_offset(s, index as int),
                        s.subrange(index as int, end as int),
                    ),
                ] =~= seq![tv]);
                if spec_tokenize(s, end as int) is Ok {
                    let rest = spec_tokenize(s, end as int)->Ok_0;
                    assert(spec_tokenize(s, index as int) == Ok::<Seq<TokenV>, int>(
                        seq![tv] + rest,
                    ));
                    assert(prefix + (seq![tv] + rest) =~= prefix.push(tv) + rest);
                }
            }
            byte_index = byte_index + token.value.as_str().len();
            tokens.push(token);
            index = end;
        }

        Ok(tokens)
    }

    /// Recognizes the single token starting at `index`, trying the four
    /// patterns in priority order.
    fn next_token(&self, index: usize, byte_index: usize, code: &str) -> (r: ParseResult<
        Token,
    >)
        requires
            index < code@.len(),
            byte_index as int == byte_offset(code@, index as int),
        ensures
            match r {
                Ok(t) => {
                    &&& t.index == byte_index
                    &&& t.value@.len() > 0
                    &&& index + t.value@.len() <= code@.len()
                    &&& next_token_kind_end(code@, index as int) == Some(
                        (t.token_type, index + t.value@.len()),
                    )
                    &&& t.value@ == code@.subrange(index as int, index + t.value@.len())
                },
                Err(e) => {
                    &&& next_token_kind_end(code@, index as int) is None
                    &&& e.index == byte_index
                    &&& e.message@ == "Invalid Token"@
                },
            },
    {
        let ghost s = code@;
        let len = code.unicode_len();
        let c0 = code.get_char(index);

        if c0 == '!' {
            // A label marker: try `!`, one or more command letters, `!`.
            let mut j = index + 1;
            while j < len && is_command(code.get_char(j))
                invariant
                    index + 1 <= j <= len == s.len(),
                    code@ == s,
                    command_run_end(s, index + 1) == command_run_end(s, j as int),
                decreases len - j,
            {
                j += 1;
            }
            assert(command_run_end(s, j as int) == j);
            if j > index + 1 && j < len && code.get_char(j) == '!' {
                let value = code.substring_char(index, j + 1).to_owned();
                return Ok(Token { token_type: TokenType::Label, index: byte_index, value });
            }
        }

        if is_command(c0) {
            let value = code.substring_char(index, index + 1).to_owned();
            return Ok(Token { token_type: TokenType::Command, index: byte_index, value });
        }

        if is_whitespace(c0) {
            let mut j = index + 1;
            while j < len && is_whitespace(code.get_char(j))
                invariant
                    index + 1 <= j <= len == s.len(),
                    code@ == s,
                    whitespace_run_end(s, index as int) == whitespace_run_end(s, j as int),
                decreases len - j,
            {
                j += 1;
            }
            assert(whitespace_run_end(s, j as int) == j);
            let value = code.substring_char(index, j).to_owned();
            return Ok(Token { token_type: TokenType::Whitespace, index: byte_index, value });
        }

        if c0 == '#' {
            // A comment runs through the newline that ends it, if any.
            let mut j = index + 1;
            while j < len && code.get_char(j) != '\n'
                invariant
                    index + 1 <= j <= len == s.len(),
                    code@ == s,
                    line_end(s, index as int) == line_end(s, j as int),
                decreases len - j,
            {
                j += 1;
            }
            let end = if j < len { j + 1 } else { j };
            assert(line_end(s, index as int) == end);
            let value = code.substring_char(index, end).to_owned();
            return Ok(Token { token_type: TokenType::Comment, index: byte_index, value });
        }

        Err(SyntaxError { index: byte_index, message: String::from_str("Invalid Token") })
    }
}

/// A node of the syntax tree. Only two shapes occur: a label node with no
/// children, and a command node with no child or, for a jump, exactly one
/// label child.
pub struct SyntaxNode {
    pub token: Token,
    pub children: Vec<SyntaxNode>,
}

/// The program after trivia removal: the ordered top-level nodes.
pub struct SyntaxTree {
    pub tree: Vec<SyntaxNode>,
}

/// Mathematical view of a node: its own token, and the token of its label
/// child if it has one.
pub type NodeV = (TokenV, Option<TokenV>);

pub open spec fn node_v(n: SyntaxNode) -> NodeV {
    (
        token_v(n.token),
        if n.children@.len() > 0 {
            Some(token_v(n.children@[0].token))
        } else {
            None
        },
    )
}

/// The opcode a command text denotes, if any.
pub open spec fn op_code_of(v: Seq<char>) -> Option<OpCode> {
    if v == seq!['S'] {
        Some(OpCode::Push0)
    } else if v == seq!['H'] {
        Some(OpCode::Pop)
    } else if v == seq!['R'] {
        Some(OpCode::Bump)
    } else if v == seq!['E'] {
        Some(OpCode::Func)
    } else if v == seq!['K'] {
        Some(OpCode::Jump)
    } else {
        None
    }
}

/// Parsing one command token at position `i`: the node it yields and the
/// position of the next unconsumed token, or the error. A jump must be
/// followed, immediately in the raw token stream, by a label token.
pub open spec fn spec_parse_command(tokens: Seq<TokenV>, i: int) -> Result<
    (NodeV, int),
    (int, Seq<char>),
> {
    let t = tokens[i];
    match op_code_of(t.2) {
        None => Err((t.1, "invalid operation code"@)),
        Some(op) => if op == OpCode::Jump {
            if i + 1 < tokens.len() {
                if tokens[i + 1].0 == TokenType::Label {
                    Ok(((t, Some(tokens[i + 1])), i + 2))
                } else {
                    Err((t.1, "missing label after jump"@))
                }
            } else {
                Err((t.1, "missing command after jump"@))
            }
        } else {
            Ok(((t, None), i + 1))
        },
    }
}

/// Building the syntax tree from the token stream, starting at position `i`.
/// Whitespace and comment tokens are skipped; labels and commands become
/// nodes.
pub open spec fn spec_build(tokens: Seq<TokenV>, i: int) -> Result<Seq<NodeV>, (int, Seq<char>)>
    decreases tokens.len() - i when 0 <= i <= tokens.len() via spec_build_decreases
{
    if i >= tokens.len() {
        Ok(Seq::empty())
    } else {
        match tokens[i].0 {
            TokenType::Whitespace => spec_build(tokens, i + 1),
            TokenType::Comment => spec_build(tokens, i + 1),
            TokenType::Label => match spec_build(tokens, i + 1) {
                Err(e) => Err(e),
                Ok(rest) => Ok(seq![(tokens[i], None::<TokenV>)] + rest),
            },
            TokenType::Command => match spec_parse_command(tokens, i) {
                Err(e) => Err(e),
                Ok((node, next)) => match spec_build(tokens, next) {
                    Err(e) => Err(e),
                    Ok(rest) => Ok(seq![node] + rest),
                },
            },
        }
    }
}

#[via_fn]
proof fn spec_build_decreases(tokens: Seq<TokenV>, i: int) {
}

/// A syntax tree never holds more nodes than the token stream holds tokens.
pub proof fn lemma_build_count(tokens: Seq<TokenV>, i: int, nodes: Seq<NodeV>)
    requires
        0 <= i <= tokens.len(),
        spec_build(tokens, i) == Ok::<Seq<NodeV>, (int, Seq<char>)>(nodes),
    ensures
        nodes.len() <= tokens.len() - i,
    decreases tokens.len() - i,
{
    if i < tokens.len() {
        match tokens[i].0 {
            TokenType::Whitespace => lemma_build_count(tokens, i + 1, nodes),
            TokenType::Comment => lemma_build_count(tokens, i + 1, nodes),
            TokenType::Label => {
                lemma_build_count(tokens, i + 1, spec_build(tokens, i + 1)->Ok_0);
            },
            TokenType::Command => {
                let (node, next) = spec_parse_command(tokens, i)->Ok_0;
                lemma_build_count(tokens, next, spec_build(tokens, next)->Ok_0);
            },
        }
    }
}

/// The well-formedness the builder guarantees of every node it emits.
pub open spec fn node_wf(n: SyntaxNode) -> bool {
    &&& n.children@.len() <= 1
    &&& n.children@.len() == 1 ==> {
        &&& n.children@[0].token.token_type == TokenType::Label
        &&& n.children@[0].children@.len() == 0
    }
}

impl SyntaxTree {
    /// Builds the syntax tree from the token stream: trivia is dropped,
    /// labels and commands become nodes, and each jump captures the label
    /// token that immediately follows it as its sole child.
    pub fn generate(tokens: &Vec<Token>) -> (r: ParseResult<SyntaxTree>)
        ensures
            match r {
                Ok(tree) => {
                    &&& spec_build(tokens@.map_values(|t: Token| token_v(t)), 0) == Ok::<
                        Seq<NodeV>,
                        (int, Seq<char>),
                    >(tree.tree@.map_values(|n: SyntaxNode| node_v(n)))
                    &&& forall|k: int|
                        0 <= k < tree.tree@.len() ==> node_wf(#[trigger] tree.tree@[k])
                },
                Err(e) => spec_build(tokens@.map_values(|t: Token| token_v(t)), 0) == Err::<
                    Seq<NodeV>,
                    (int, Seq<char>),
                >((e.index as int, e.message@)),
            },
    {
        let ghost toks = tokens@.map_values(|t: Token| token_v(t));
        let mut tree = SyntaxTree { tree: Vec::new() };
        let mut index: usize = 0;

        while index < tokens.len()
            invariant
                index <= tokens.len(),
                toks == tokens@.map_values(|t: Token| token_v(t)),
                toks.len() == tokens@.len(),
                spec_build(toks, 0) == (match spec_build(toks, index as int) {
                    Ok(rest) => Ok::<Seq<NodeV>, (int, Seq<char>)>(
                        tree.tree@.map_values(|n: SyntaxNode| node_v(n)) + rest,
                    ),
                    Err(e) => Err::<Seq<NodeV>, (int, Seq<char>)>(e),
                }),
                forall|k: int| 0 <= k < tree.tree@.len() ==> node_wf(#[trigger] tree.tree@[k]),
            decreases tokens.len() - index,
        {
            let ghost prefix = tree.tree@.map_values(|n: SyntaxNode| node_v(n));
            let ghost i0 = index as int;
            let token_type = tokens[index].token_type;
            match token_type {
                TokenType::Command => {
                    let node = match Self::parse_command(tokens, &mut index) {
                        Ok(n) => n,
                        Err(e) => {
                            return Err(e);
                        },
                    };
                    let ghost nv = node_v(node);
                    proof {
                        assert(tree.tree@.push(node).map_values(|n: SyntaxNode| node_v(n))
                            =~= prefix.push(nv));
                        if spec_build(toks, index as int) is Ok {
                            let rest = spec_build(toks, index as int)->Ok_0;
                            assert(spec_build(toks, i0) == Ok::<Seq<NodeV>, (int, Seq<char>)>(
                                seq![nv] + rest,
                            ));
                            assert(prefix + (seq![nv] + rest) =~= prefix.push(nv) + rest);
                        }
                    }
                    tree.tree.push(node);
                },
                TokenType::Label => {
                    let node = Self::parse_label(tokens, &mut index);
                    let ghost nv = node_v(node);
                    proof {
                        assert(tree.tree@.push(node).map_values(|n: SyntaxNode| node_v(n))
                            =~= prefix.push(nv));
                        if spec_build(toks, index as int) is Ok {
                            let rest = spec_build(toks, index as int)->Ok_0;
                            assert(spec_build(toks, i0) == Ok::<Seq<NodeV>, (int, Seq<char>)>(
                                seq![nv] + rest,
                            ));
                            assert(prefix + (seq![nv] + rest) =~= prefix.push(nv) + rest);
                        }
                    }
                    tree.tree.push(node);
                },
                _ => {
                    index += 1;
                },
            }
        }

        Ok(tree)
    }

    /// Parses the command token at `*index`, consuming the label token that
    /// must immediately follow a jump.
    fn parse_command(tokens: &Vec<Token>, index: &mut usize) -> (r: ParseResult<SyntaxNode>)
        requires
            *old(index) < tokens@.len(),
            tokens@[*old(index) as int].token_type == TokenType::Command,
        ensures
            ({
                let toks = tokens@.map_values(|t: Token| token_v(t));
                match r {
                    Ok(node) => {
                        &&& spec_parse_command(toks, *old(index) as int) == Ok::<
                            (NodeV, int),
                            (int, Seq<char>),
                        >((node_v(node), *final(index) as int))
                        &&& *final(index) <= tokens@.len()
                        &&& node_wf(node)
                    },
                    Err(e) => {
                        &&& spec_parse_command(toks, *old(index) as int) == Err::<
                            (NodeV, int),
                            (int, Seq<char>),
                        >((e.index as int, e.message@))
                        &&& *final(index) == *old(index)
                    },
                }
            }),
    {
        // The token count bounds the cursor, so advancing it cannot overflow.
        let n = tokens.len();
        let token = &tokens[*index];
        let ghost i = *index as int;
        let ghost toks = tokens@.map_values(|t: Token| token_v(t));

        let op_code = match get_op_code(token.value.as_str()) {
            Some(op) => op,
            None => {
                return Err(
                    SyntaxError {
                        index: token.index,
                        message: String::from_str("invalid operation code"),
                    },
                );
            },
        };

        *index += 1;
        let mut node = SyntaxNode { token: clone_token(token), children: Vec::new() };

        if op_code == OpCode::Jump {
            if *index < tokens.len() {
                let next_token = &tokens[*index];
                if next_token.token_type == TokenType::Label {
                    let child = Self::parse_label(tokens, index);
                    node.children.push(child);
                } else {
                    *index -= 1;
                    return Err(
                        SyntaxError {
                            index: token.index,
                            message: String::from_str("missing label after jump"),
                        },
                    );
                }
            } else {
                *index -= 1;
                return Err(
                    SyntaxError {
                        index: token.index,
                        message: String::from_str("missing command after jump"),
                    },
                );
            }
        }

        Ok(node)
    }

    /// Parses the label token at `*index` into a childless node.
    fn parse_label(tokens: &Vec<Token>, index: &mut usize) -> (node: SyntaxNode)
        requires
            *old(index) < tokens@.len(),
        ensures
            *final(index) == *old(index) + 1,
            node_v(node) == (
                tokens@.map_values(|t: Token| token_v(t))[*old(index) as int],
                None::<TokenV>,
            ),
            node.children@.len() == 0,
            node.token.token_type == tokens@[*old(index) as int].token_type,
    {
        // The token count bounds the cursor, so advancing it cannot overflow.
        let n = tokens.len();
        let token = &tokens[*index];
        *index += 1;
        SyntaxNode { token: clone_token(token), children: Vec::new() }
    }
}

/// Position of `l` in the label table, or `-1` if it has not been assigned
/// an identifier yet. The position is the identifier.
pub open spec fn label_index(labels: Seq<Seq<char>>, l: Seq<char>) -> int
    decreases labels.len(),
{
    if labels.len() == 0 {
        -1
    } else if labels[0] == l {
        0
    } else {
        let r = label_index(labels.drop_first(), l);
        if r < 0 {
            -1
        } else {
            r + 1
        }
    }
}

/// `label_index` finds the first occurrence, and `-1` means absence.
pub proof fn lemma_label_index(labels: Seq<Seq<char>>, l: Seq<char>)
    ensures
        label_index(labels, l) >= 0 ==> {
            &&& label_index(labels, l) < labels.len()
            &&& labels[label_index(labels, l)] == l
            &&& forall|j: int| 0 <= j < label_index(labels, l) ==> labels[j] != l
        },
        label_index(labels, l) < 0 ==> forall|j: int| 0 <= j < labels.len() ==> labels[j] != l,
    decreases labels.len(),
{
    if labels.len() > 0 && labels[0] != l {
        lemma_label_index(labels.drop_first(), l);
        assert(forall|j: int|
            1 <= j < labels.len() ==> labels[j] == labels.drop_first()[j - 1]);
    }
}

/// Looking a label up in the table, assigning it the next sequential
/// identifier on first occurrence: the identifier and the updated table.
pub open spec fn spec_get_label_num(labels: Seq<Seq<char>>, l: Seq<char>) -> (int, Seq<Seq<char>>) {
    let k = label_index(labels, l);
    if k >= 0 {
        (k, labels)
    } else {
        (labels.len() as int, labels.push(l))
    }
}

/// Bytecode generation over the nodes from position `i` on, with the label
/// table accumulated so far: the emitted instructions and the final table,
/// or the error.
pub open spec fn spec_generate(nodes: Seq<NodeV>, i: int, labels: Seq<Seq<char>>) -> Result<
    (Seq<ByteCode>, Seq<Seq<char>>),
    (int, Seq<char>),
>
    decreases nodes.len() - i when 0 <= i <= nodes.len()
{
    if i >= nodes.len() {
        Ok((Seq::empty(), labels))
    } else {
        let t = nodes[i].0;
        let child = nodes[i].1;
        match t.0 {
            TokenType::Label => {
                let (id, labels1) = spec_get_label_num(labels, t.2);
                match spec_generate(nodes, i + 1, labels1) {
                    Err(e) => Err(e),
                    Ok((rest, labels2)) => Ok(
                        (
                            seq![ByteCode { op_code: OpCode::Label, arg: id as i32 }] + rest,
                            labels2,
                        ),
                    ),
                }
            },
            TokenType::Command => match op_code_of(t.2) {
                None => Err((t.1, "invalid operation code"@)),
                Some(op) => if op == OpCode::Jump {
                    if child is Some && child->Some_0.0 == TokenType::Label {
                        let (id, labels1) = spec_get_label_num(labels, child->Some_0.2);
                        match spec_generate(nodes, i + 1, labels1) {
                            Err(e) => Err(e),
                            Ok((rest, labels2)) => Ok(
                                (
                                    seq![ByteCode { op_code: OpCode::Jump, arg: id as i32 }]
                                        + rest,
                                    labels2,
                                ),
                            ),
                        }
                    } else {
                        Err((t.1, "jump must be followed by a label"@))
                    }
                } else {
                    match spec_generate(nodes, i + 1, labels) {
                        Err(e) => Err(e),
                        Ok((rest, labels2)) => Ok(
                            (seq![ByteCode { op_code: op, arg: 0 }] + rest, labels2),
                        ),
                    }
                },
            },
            _ => spec_generate(nodes, i + 1, labels),
        }
    }
}

/// Generation emits at most one instruction per node and grows the label
/// table by at most one entry per node.
pub proof fn lemma_generate_count(nodes: Seq<NodeV>, i: int, labels: Seq<Seq<char>>)
    requires
        0 <= i <= nodes.len(),
        spec_generate(nodes, i, labels) is Ok,
    ensures
        spec_generate(nodes, i, labels)->Ok_0.0.len() <= nodes.len() - i,
        spec_generate(nodes, i, labels)->Ok_0.1.len() <= labels.len() + (nodes.len() - i),
    decreases nodes.len() - i,
{
    if i < nodes.len() {
        let t = nodes[i].0;
        let child = nodes[i].1;
        match t.0 {
            TokenType::Label => {
                lemma_generate_count(nodes, i + 1, spec_get_label_num(labels, t.2).1);
            },
            TokenType::Command => {
                let op = op_code_of(t.2)->Some_0;
                if op == OpCode::Jump {
                    lemma_generate_count(
                        nodes,
                        i + 1,
                        spec_get_label_num(labels, child->Some_0.2).1,
                    );
                } else {
                    lemma_generate_count(nodes, i + 1, labels);
                }
            },
            _ => {
                lemma_generate_count(nodes, i + 1, labels);
            },
        }
    }
}

/// Label numbering determinism: generation is a pure function of the node
/// views, so re-running it on the same syntax tree always assigns identical
/// label identifiers and emits identical bytecode.
pub proof fn lemma_generate_deterministic(t1: SyntaxTree, t2: SyntaxTree)
    requires
        t1.tree@.map_values(|n: SyntaxNode| node_v(n)) == t2.tree@.map_values(
            |n: SyntaxNode| node_v(n),
        ),
    ensures
        spec_generate(t1.tree@.map_values(|n: SyntaxNode| node_v(n)), 0, Seq::empty())
            == spec_generate(t2.tree@.map_values(|n: SyntaxNode| node_v(n)), 0, Seq::empty()),
{
}

/// Walks the syntax tree once and emits the flat bytecode sequence,
/// assigning label identifiers in order of first textual occurrence.
pub fn generate_byte_code(syntax_tree: &SyntaxTree) -> (r: ParseResult<Vec<ByteCode>>)
    requires
        syntax_tree.tree@.len() < 0x7fff_ffff,
    ensures
        ({
            let g = spec_generate(
                syntax_tree.tree@.map_values(|n: SyntaxNode| node_v(n)),
                0,
                Seq::empty(),
            );
            match r {
                Ok(code) => g is Ok && code@ == g->Ok_0.0,
                Err(e) => g == Err::<(Seq<ByteCode>, Seq<Seq<char>>), (int, Seq<char>)>(
                    (e.index as int, e.message@),
                ),
            }
        }),
{
    let ghost nodes = syntax_tree.tree@.map_values(|n: SyntaxNode| node_v(n));
    let mut byte_code: Vec<ByteCode> = Vec::new();
    let mut label_map: Vec<String> = Vec::new();
    let n = syntax_tree.tree.len();
    let mut i: usize = 0;

    proof {
        assert(label_map@.map_values(|s: String| s@) =~= Seq::<Seq<char>>::empty());
        if spec_generate(nodes, 0, Seq::empty()) is Ok {
            assert(byte_code@ + spec_generate(nodes, 0, Seq::empty())->Ok_0.0 =~= spec_generate(
                nodes,
                0,
                Seq::empty(),
            )->Ok_0.0);
        }
    }

    while i < n
        invariant
            i <= n == syntax_tree.tree@.len(),
            nodes == syntax_tree.tree@.map_values(|n: SyntaxNode| node_v(n)),
            nodes.len() == n,
            n < 0x7fff_ffff,
            label_map@.len() <= i,
            spec_generate(nodes, 0, Seq::empty()) == (match spec_generate(
                nodes,
                i as int,
                label_map@.map_values(|s: String| s@),
            ) {
                Ok((rest, lf)) => Ok::<(Seq<ByteCode>, Seq<Seq<char>>), (int, Seq<char>)>(
                    (byte_code@ + rest, lf),
                ),
                Err(e) => Err::<(Seq<ByteCode>, Seq<Seq<char>>), (int, Seq<char>)>(e),
            }),
        decreases n - i,
    {
        let ghost labels0 = label_map@.map_values(|s: String| s@);
        let node = &syntax_tree.tree[i];
        proof {
            assert(node_v(syntax_tree.tree@[i as int]) == nodes[i as int]);
        }
        match node.token.token_type {
            TokenType::Label => {
                let arg = get_label_num(&mut label_map, &node.token.value);
                let code = ByteCode { op_code: OpCode::Label, arg };
                proof {
                    let labels1 = spec_get_label_num(labels0, nodes[i as int].0.2).1;
                    if spec_generate(nodes, i as int + 1, labels1) is Ok {
                        let rest = spec_generate(nodes, i as int + 1, labels1)->Ok_0.0;
                        assert(byte_code@ + (seq![code] + rest) =~= byte_code@.push(code)
                            + rest);
                    }
                }
                byte_code.push(code);
            },
            TokenType::Command => {
                let op_code = match get_op_code(node.token.value.as_str()) {
                    Some(op) => op,
                    None => {
                        return Err(
                            SyntaxError {
                                index: node.token.index,
                                message: String::from_str("invalid operation code"),
                            },
                        );
                    },
                };
                if op_code == OpCode::Jump {
                    if node.children.len() == 0 || !(node.children[0].token.token_type
                        == TokenType::Label) {
                        return Err(
                            SyntaxError {
                                index: node.token.index,
                                message: String::from_str("jump must be followed by a label"),
                            },
                        );
                    }
                    let arg = get_label_num(&mut label_map, &node.children[0].token.value);
                    let code = ByteCode { op_code: OpCode::Jump, arg };
                    proof {
                        let child = nodes[i as int].1;
                        let labels1 = spec_get_label_num(labels0, child->Some_0.2).1;
                        if spec_generate(nodes, i as int + 1, labels1) is Ok {
                            let rest = spec_generate(nodes, i as int + 1, labels1)->Ok_0.0;
                            assert(byte_code@ + (seq![code] + rest) =~= byte_code@.push(code)
                                + rest);
                        }
                    }
                    byte_code.push(code);
                } else {
                    let code = ByteCode { op_code, arg: 0 };
                    proof {
                        if spec_generate(nodes, i as int + 1, labels0) is Ok {
                            let rest = spec_generate(nodes, i as int + 1, labels0)->Ok_0.0;
                            assert(byte_code@ + (seq![code] + rest) =~= byte_code@.push(code)
                                + rest);
                        }
                    }
                    byte_code.push(code);
                }
            },
            _ => {},
        }
        i += 1;
    }

    proof {
        assert(byte_code@ + Seq::<ByteCode>::empty() =~= byte_code@);
    }
    Ok(byte_code)
}

/// Returns the identifier already assigned to `label`, or assigns it the
/// next sequential one.
fn get_label_num(label_map: &mut Vec<String>, label: &String) -> (num: i32)
    requires
        old(label_map)@.len() < 0x7fff_ffff,
    ensures
        ({
            let (id, labels2) = spec_get_label_num(
                old(label_map)@.map_values(|s: String| s@),
                label@,
            );
            &&& num as int == id
            &&& final(label_map)@.map_values(|s: String| s@) == labels2
            &&& final(label_map)@.len() <= old(label_map)@.len() + 1
        }),
{
    let ghost labels = label_map@.map_values(|s: String| s@);
    proof {
        lemma_label_index(labels, label@);
    }
    let n = label_map.len();
    let mut k: usize = 0;
    while k < n
        invariant
            k <= n == label_map@.len(),
            n < 0x7fff_ffff,
            label_map@ == old(label_map)@,
            labels == label_map@.map_values(|s: String| s@),
            labels.len() == n,
            forall|j: int| 0 <= j < k ==> labels[j] != label@,
        decreases n - k,
    {
        proof {
            assert(labels[k as int] == label_map@[k as int]@);
        }
        if label_map[k].eq(label) {
            proof {
                lemma_label_index(labels, label@);
                let idx = label_index(labels, label@);
                if idx < 0 {
                    assert(labels[k as int] != label@);
                } else {
                    if idx < k as int {
                        assert(labels[idx] != label@);
                    }
                    if idx > k as int {
                        assert(labels[k as int] != label@);
                    }
                }
                assert(idx == k as int);
            }
            return k as i32;
        }
        k += 1;
    }
    let new_val = label_map.len() as i32;
    label_map.push(label.clone());
    proof {
        assert(final(label_map)@.map_values(|s: String| s@) =~= labels.push(label@));
    }
    new_val
}

/// Builds an owned copy of a token with the same view.
fn clone_token(t: &Token) -> (r: Token)
    ensures
        token_v(r) == token_v(*t),
        r.token_type == t.token_type,
        r.index == t.index,
        r.value@ == t.value@,
{
    Token { token_type: t.token_type, index: t.index, value: t.value.clone() }
}

/// Maps a command text to its opcode.
pub fn get_op_code(value: &str) -> (r: Option<OpCode>)
    ensures
        r == op_code_of(value@),
{
    if value.unicode_len() == 1 {
        let c = value.get_char(0);
        proof {
            assert(value@ =~= seq![c]);
        }
        if c == 'S' {
            Some(OpCode::Push0)
        } else if c == 'H' {
            Some(OpCode::Pop)
        } else if c == 'R' {
            Some(OpCode::Bump)
        } else if c == 'E' {
            Some(OpCode::Func)
        } else if c == 'K' {
            Some(OpCode::Jump)
        } else {
            proof {
                assert(value@[0] == c);
            }
            None
        }
    } else {
        None
    }
}

/// Executable check for the command letters.
fn is_command(c: char) -> (r: bool)
    ensures
        r == is_command_char(c),
{
    c == 'S' || c == 'H' || c == 'R' || c == 'E' || c == 'K'
}

/// Executable check for the accepted whitespace characters.
fn is_whitespace(c: char) -> (r: bool)
    ensures
        r == is_whitespace_char(c),
{
    c == ' ' || c == '\t' || c == '\n' || c == '\r' || c == '\u{b}' || c == '\u{c}' || c
        == '\u{85}' || c == '\u{a0}' || c == '\u{1680}' || (c as u32 >= 0x2000 && c as u32
        <= 0x200a) || c == '\u{2028}' || c == '\u{2029}' || c == '\u{202f}' || c == '\u{205f}'
        || c == '\u{3000}'
}

} // verus!
