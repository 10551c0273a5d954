use vstd::prelude::*;
use vstd::string::StrSliceExecFns;
use std::rc::Rc;
use crate::error::DialError;
use crate::error::UNCLOSED_PAREN;
use crate::error::UNEXPECTED_CLOSE;
use crate::numeral::spec_parse_int;
use crate::object::Keyword;
use crate::object::ObjModel;
use crate::object::Object;
use crate::object::rc_res_matches;

verus! {

// ---------------------------------------------------------------------------
// Tokens.  Whitespace separates; each parenthesis is a token of its own; any
// other maximal run of characters is one token.
// ---------------------------------------------------------------------------

pub open spec fn is_ws(c: char) -> bool {
    c == ' ' || c == '\t' || c == '\n' || c == '\r'
}

pub open spec fn is_paren(c: char) -> bool {
    c == '(' || c == ')'
}

pub open spec fn is_token_char(c: char) -> bool {
    !is_ws(c) && !is_paren(c)
}

/// The length of the maximal leading run of ordinary token characters.
pub open spec fn token_run(s: Seq<char>) -> nat
    decreases s.len(),
{
    if s.len() == 0 || !is_token_char(s[0]) {
        0
    } else {
        1 + token_run(s.drop_first())
    }
}

pub proof fn lemma_token_run_le(s: Seq<char>)
    ensures
        token_run(s) <= s.len(),
    decreases s.len(),
{
    if s.len() > 0 && is_token_char(s[0]) {
        lemma_token_run_le(s.drop_first());
    }
}

/// `token_run` is pinned down by its boundary.
pub proof fn lemma_token_run_eq(s: Seq<char>, k: int)
    requires
        0 <= k <= s.len(),
        forall|m: int| 0 <= m < k ==> is_token_char(s[m]),
        k < s.len() ==> !is_token_char(s[k]),
    ensures
        token_run(s) == k,
    decreases k,
{
    if k == 0 {
    } else {
        assert(is_token_char(s[0]));
        assert(forall|m: int| 0 <= m < k - 1 ==> is_token_char(s.drop_first()[m]));
        lemma_token_run_eq(s.drop_first(), k - 1);
    }
}

/// The token sequence of a piece of source text.
pub open spec fn spec_tokenize(s: Seq<char>) -> Seq<Seq<char>>
    decreases s.len(),
    via spec_tokenize_dec
{
    if s.len() == 0 {
        Seq::<Seq<char>>::empty()
    } else if is_ws(s[0]) {
        spec_tokenize(s.drop_first())
    } else if is_paren(s[0]) {
        seq![seq![s[0]]] + spec_tokenize(s.drop_first())
    } else {
        let k = 1 + token_run(s.drop_first());
        seq![s.take(k as int)] + spec_tokenize(s.skip(k as int))
    }
}

#[via_fn]
proof fn spec_tokenize_dec(s: Seq<char>) {
    if s.len() > 0 && !is_ws(s[0]) && !is_paren(s[0]) {
        lemma_token_run_le(s.drop_first());
    }
}

// ---------------------------------------------------------------------------
// Atoms.  Reserved identifiers become keywords, `#t`/`#f` booleans, decimal
// numerals numbers, and everything else a symbol.
// ---------------------------------------------------------------------------

pub open spec fn spec_parse_atom(t: Seq<char>) -> ObjModel {
    if t == "lambda"@ {
        ObjModel::Kw(Keyword::Lambda)
    } else if t == "if"@ {
        ObjModel::Kw(Keyword::If)
    } else if t == "quote"@ {
        ObjModel::Kw(Keyword::Quote)
    } else if t == "define"@ {
        ObjModel::Kw(Keyword::Define)
    } else if t == "#t"@ {
        ObjModel::Boolean(true)
    } else if t == "#f"@ {
        ObjModel::Boolean(false)
    } else {
        match spec_parse_int(t) {
            Some(n) => ObjModel::Num(n),
            None => ObjModel::Sym(t),
        }
    }
}

// ---------------------------------------------------------------------------
// The grammar:  expr := atom | '(' list ')',  list := e | expr list.
// Parsing consumes tokens from a position and reports how far it came; the
// errors are `UNEXPECTED_CLOSE` for a stray ')' and `UNCLOSED_PAREN` for
// running out of tokens inside a list.
// ---------------------------------------------------------------------------

pub open spec fn spec_parse_expr(toks: Seq<Seq<char>>, i: int) -> Result<
    (ObjModel, int),
    DialError,
>
    decreases toks.len() - i, 0int,
{
    if i < 0 || i >= toks.len() {
        Err(DialError { code: UNCLOSED_PAREN })
    } else if toks[i] == ")"@ {
        Err(DialError { code: UNEXPECTED_CLOSE })
    } else if toks[i] == "("@ {
        spec_parse_list(toks, i + 1)
    } else {
        Ok((spec_parse_atom(toks[i]), i + 1))
    }
}

pub open spec fn spec_parse_list(toks: Seq<Seq<char>>, i: int) -> Result<
    (ObjModel, int),
    DialError,
>
    decreases toks.len() - i, 1int,
{
    if i < 0 || i >= toks.len() {
        Err(DialError { code: UNCLOSED_PAREN })
    } else if toks[i] == ")"@ {
        Ok((ObjModel::Null, i + 1))
    } else {
        match spec_parse_expr(toks, i) {
            Err(e) => Err(e),
            Ok((car, j)) => if i < j <= toks.len() {
                match spec_parse_list(toks, j) {
                    Err(e) => Err(e),
                    Ok((rest, k)) => Ok((ObjModel::Pair(Box::new(car), Box::new(rest)), k)),
                }
            } else {
                Err(DialError { code: UNCLOSED_PAREN })
            },
        }
    }
}

/// A successful parse always advances and never runs past the tokens.
pub proof fn lemma_parse_expr_advances(toks: Seq<Seq<char>>, i: int)
    ensures
        spec_parse_expr(toks, i) matches Ok(oj) ==> i < oj.1 <= toks.len(),
    decreases toks.len() - i, 0int,
{
    if 0 <= i < toks.len() && toks[i] != ")"@ && toks[i] == "("@ {
        lemma_parse_list_advances(toks, i + 1);
    }
}

pub proof fn lemma_parse_list_advances(toks: Seq<Seq<char>>, i: int)
    ensures
        spec_parse_list(toks, i) matches Ok(oj) ==> i < oj.1 <= toks.len(),
    decreases toks.len() - i, 1int,
{
    if 0 <= i < toks.len() && toks[i] != ")"@ {
        lemma_parse_expr_advances(toks, i);
        match spec_parse_expr(toks, i) {
            Err(_) => {},
            Ok((car, j)) => {
                if i < j <= toks.len() {
                    lemma_parse_list_advances(toks, j);
                }
            },
        }
    }
}

/// What `read` yields for a piece of source text: `Unspecified` for empty
/// input, otherwise the first expression; tokens past it are ignored.
pub open spec fn spec_read(s: Seq<char>) -> Result<ObjModel, DialError> {
    let toks = spec_tokenize(s);
    if toks.len() == 0 {
        Ok(ObjModel::Unspecified)
    } else {
        match spec_parse_expr(toks, 0) {
            Ok(oj) => Ok(oj.0),
            Err(e) => Err(e),
        }
    }
}

/// One balanced group: `None` if `start` is out of range or no balancing
/// close parenthesis follows, otherwise the index just past the group (for a
/// token that is no open parenthesis, just past that token).
pub open spec fn close_scan(toks: Seq<Seq<char>>, i: int, depth: int) -> Option<int>
    decreases toks.len() - i,
{
    if i < 0 || i >= toks.len() {
        None
    } else {
        let d = if toks[i] == "("@ {
            depth + 1
        } else if toks[i] == ")"@ {
            depth - 1
        } else {
            depth
        };
        if d == 0 {
            Some(i + 1)
        } else {
            close_scan(toks, i + 1, d)
        }
    }
}

pub open spec fn spec_grab(toks: Seq<Seq<char>>, start: int) -> Option<int> {
    if !(0 <= start < toks.len()) {
        None
    } else if toks[start] != "("@ {
        Some(start + 1)
    } else {
        close_scan(toks, start + 1, 1)
    }
}

/// The reader: tokenizer and parser.
pub struct Reader {}

fn token_char(c: char) -> (r: bool)
    ensures
        r == is_token_char(c),
{
    !(c == ' ' || c == '\t' || c == '\n' || c == '\r' || c == '(' || c == ')')
}

/// Correspondence between an executable parse result and its model.
pub open spec fn parse_res_matches(
    r: Result<(Rc<Object>, usize), DialError>,
    s: Result<(ObjModel, int), DialError>,
) -> bool {
    match r {
        Ok(oj) => s matches Ok(sj) && oj.0@ == sj.0 && oj.1 as int == sj.1,
        Err(e) => s matches Err(e2) && e == e2,
    }
}

impl Reader {
    /// Splits source text into tokens: parentheses stand alone, whitespace
    /// separates, and any other maximal run is one token.
    pub fn tokenize(&self, code: &str) -> (toks: Vec<String>)
        ensures
            toks.deep_view() == spec_tokenize(code@),
    {
        let n = code.unicode_len();
        let mut toks: Vec<String> = Vec::new();
        let mut i: usize = 0;
        proof {
            assert(code@.skip(0) =~= code@);
            assert(toks.deep_view() =~= Seq::<Seq<char>>::empty());
        }
        while i < n
            invariant
                0 <= i <= n,
                n == code@.len(),
                spec_tokenize(code@) == toks.deep_view() + spec_tokenize(code@.skip(i as int)),
            decreases n - i,
        {
            let ghost suff = code@.skip(i as int);
            proof {
                assert(suff[0] == code@[i as int]);
                assert(suff.drop_first() =~= code@.skip(i + 1));
            }
            let c = code.get_char(i);
            if c == ' ' || c == '\t' || c == '\n' || c == '\r' {
                i = i + 1;
            } else if c == '(' || c == ')' {
                let mut t = String::new();
                crate::strutil::push_char(&mut t, c);
                proof {
                    assert(t@ =~= seq![code@[i as int]]);
                }
                let ghost oldt = toks.deep_view();
                toks.push(t);
                proof {
                    assert(toks.deep_view() =~= oldt + seq![seq![code@[i as int]]]);
                    assert(oldt + (seq![seq![code@[i as int]]] + spec_tokenize(code@.skip(i + 1)))
                        =~= toks.deep_view() + spec_tokenize(code@.skip(i + 1)));
                }
                i = i + 1;
            } else {
                let start = i;
                let mut t = String::new();
                crate::strutil::push_char(&mut t, c);
                i = i + 1;
                proof {
                    assert(t@ =~= code@.subrange(start as int, i as int));
                }
                loop
                    invariant
                        start < i <= n,
                        n == code@.len(),
                        t@ == code@.subrange(start as int, i as int),
                        forall|m: int|
                            start <= m < i ==> is_token_char(code@[m]),
                    ensures
                        start < i <= n,
                        t@ == code@.subrange(start as int, i as int),
                        forall|m: int|
                            start <= m < i ==> is_token_char(code@[m]),
                        i < n ==> !is_token_char(code@[i as int]),
                    decreases n - i,
                {
                    if i >= n {
                        break ;
                    }
                    let c2 = code.get_char(i);
                    if !token_char(c2) {
                        break ;
                    }
                    crate::strutil::push_char(&mut t, c2);
                    proof {
                        assert(t@ =~= code@.subrange(start as int, i + 1));
                    }
                    i = i + 1;
                }
                proof {
                    let k = i - start;
                    assert(forall|m: int| 0 <= m < k ==> suff[m] == code@[start + m]);
                    assert(i < n ==> !is_token_char(suff[k]));
                    lemma_token_run_eq(suff, k);
                    assert(token_run(suff) == k);
                    assert(is_token_char(suff[0]));
                    assert(token_run(suff) == 1 + token_run(suff.drop_first()));
                    assert(suff.take(k) =~= t@);
                    assert(suff.skip(k) =~= code@.skip(i as int));
                }
                let ghost oldt = toks.deep_view();
                toks.push(t);
                proof {
                    assert(toks.deep_view() =~= oldt + seq![suff.take(i - start)]);
                    assert(oldt + (seq![suff.take(i - start)] + spec_tokenize(
                        code@.skip(i as int),
                    )) =~= toks.deep_view() + spec_tokenize(code@.skip(i as int)));
                }
            }
        }
        proof {
            assert(code@.skip(n as int).len() == 0);
            assert(toks.deep_view() + spec_tokenize(code@.skip(n as int)) =~= toks.deep_view());
        }
        toks
    }

    /// Classifies one token: reserved identifiers, the boolean literals, a
    /// decimal numeral, or else a symbol.
    pub fn parse_atom(&self, s: &str) -> (r: Result<Object, DialError>)
        ensures
            r matches Ok(o) && o@ == spec_parse_atom(s@),
    {
        if crate::strutil::str_eq(s, "lambda") {
            Ok(Object::Keyword(Keyword::Lambda))
        } else if crate::strutil::str_eq(s, "if") {
            Ok(Object::Keyword(Keyword::If))
        } else if crate::strutil::str_eq(s, "quote") {
            Ok(Object::Keyword(Keyword::Quote))
        } else if crate::strutil::str_eq(s, "define") {
            Ok(Object::Keyword(Keyword::Define))
        } else if crate::strutil::str_eq(s, "#t") {
            Ok(Object::Boolean(true))
        } else if crate::strutil::str_eq(s, "#f") {
            Ok(Object::Boolean(false))
        } else {
            match crate::numeral::parse_decimal(s) {
                Some(n) => Ok(Object::Number(n)),
                None => Ok(Object::Symbol(s.to_owned())),
            }
        }
    }

    /// Parses one expression starting at `pos`; returns it with the position
    /// just past it.
    pub fn parse(&self, tokens: &Vec<String>, pos: usize) -> (r: Result<
        (Rc<Object>, usize),
        DialError,
    >)
        ensures
            parse_res_matches(r, spec_parse_expr(tokens.deep_view(), pos as int)),
        decreases tokens@.len() - pos, 0int,
    {
        if pos >= tokens.len() {
            return Err(DialError::new(UNCLOSED_PAREN));
        }
        let t = &tokens[pos];
        proof {
            assert(tokens.deep_view()[pos as int] == t@);
        }
        if crate::strutil::str_eq(t.as_str(), ")") {
            return Err(DialError::new(UNEXPECTED_CLOSE));
        }
        if crate::strutil::str_eq(t.as_str(), "(") {
            return self.parse_list(tokens, pos + 1);
        }
        match self.parse_atom(t.as_str()) {
            Ok(o) => {
                let ro = Rc::new(o);
                Ok((ro, pos + 1))
            },
            Err(e) => Err(e),
        }
    }

    /// Parses list elements up to the matching close parenthesis, building
    /// the right-leaning chain of pairs terminated by `Null`.
    fn parse_list(&self, tokens: &Vec<String>, pos: usize) -> (r: Result<
        (Rc<Object>, usize),
        DialError,
    >)
        ensures
            parse_res_matches(r, spec_parse_list(tokens.deep_view(), pos as int)),
        decreases tokens@.len() - pos, 1int,
    {
        if pos >= tokens.len() {
            return Err(DialError::new(UNCLOSED_PAREN));
        }
        let t = &tokens[pos];
        proof {
            assert(tokens.deep_view()[pos as int] == t@);
        }
        if crate::strutil::str_eq(t.as_str(), ")") {
            return Ok((Rc::new(Object::Null), pos + 1));
        }
        let (car, j) = self.parse(tokens, pos)?;
        proof {
            lemma_parse_expr_advances(tokens.deep_view(), pos as int);
        }
        let (rest, k) = self.parse_list(tokens, j)?;
        Ok((Object::cons(car, rest), k))
    }

    /// The extent of the balanced group that starts at `start`: the index
    /// just past its matching close parenthesis (just past the token itself
    /// when it opens no group), or `None` when the tokens run out first.
    pub fn grab(&self, tokens: &Vec<String>, start: usize) -> (r: Option<usize>)
        ensures
            match r {
                Some(j) => spec_grab(tokens.deep_view(), start as int) == Some(j as int),
                None => spec_grab(tokens.deep_view(), start as int) is None,
            },
    {
        let n = tokens.len();
        if start >= n {
            return None;
        }
        proof {
            assert(tokens.deep_view()[start as int] == tokens@[start as int]@);
        }
        if !crate::strutil::str_eq(tokens[start].as_str(), "(") {
            return Some(start + 1);
        }
        let mut i = start + 1;
        let mut depth: usize = 1;
        while i < n
            invariant
                start + 1 <= i <= n,
                n == tokens@.len(),
                1 <= depth,
                depth <= i - start,
                spec_grab(tokens.deep_view(), start as int) == close_scan(
                    tokens.deep_view(),
                    i as int,
                    depth as int,
                ),
            decreases n - i,
        {
            proof {
                assert(tokens.deep_view()[i as int] == tokens@[i as int]@);
            }
            let lp = crate::strutil::str_eq(tokens[i].as_str(), "(");
            let rp = crate::strutil::str_eq(tokens[i].as_str(), ")");
            if lp {
                depth = depth + 1;
            } else if rp {
                depth = depth - 1;
                if depth == 0 {
                    return Some(i + 1);
                }
            }
            i = i + 1;
        }
        None
    }

    /// Reads one expression from source text: `Unspecified` for empty input,
    /// otherwise the first expression; trailing tokens are ignored.
    pub fn read(&self, code: &str) -> (r: Result<Rc<Object>, DialError>)
        ensures
            rc_res_matches(r, spec_read(code@)),
    {
        let tokens = self.tokenize(code);
        if tokens.len() == 0 {
            return Ok(Rc::new(Object::Unspecified));
        }
        match self.parse(&tokens, 0) {
            Ok(oj) => Ok(oj.0),
            Err(e) => Err(e),
        }
    }
}

} // verus!
