use vstd::prelude::*;
use vstd::string::*;

verus! {

/// Comparison carried by a field term: `field:value`, `field:>value`, `field:<value`.
#[derive(Debug, Clone, Copy, PartialEq, Eq, Structural)]
pub enum Operator {
    Equals,
    GreaterThan,
    LessThan,
}

/// Abstract syntax tree of the boolean query language.
#[derive(Debug)]
pub enum QueryExpr {
    Field { name: String, operator: Operator, value: String },
    And(Box<QueryExpr>, Box<QueryExpr>),
    Or(Box<QueryExpr>, Box<QueryExpr>),
    Not(Box<QueryExpr>),
}

/// Mathematical model of a `QueryExpr`: the same tree over character sequences.
pub enum ExprModel {
    Field { name: Seq<char>, operator: Operator, value: Seq<char> },
    And(Box<ExprModel>, Box<ExprModel>),
    Or(Box<ExprModel>, Box<ExprModel>),
    Not(Box<ExprModel>),
}

pub open spec fn expr_model(e: QueryExpr) -> ExprModel
    decreases e,
{
    match e {
        QueryExpr::Field { name, operator, value } => ExprModel::Field {
            name: name@,
            operator,
            value: value@,
        },
        QueryExpr::And(l, r) => ExprModel::And(Box::new(expr_model(*l)), Box::new(expr_model(*r))),
        QueryExpr::Or(l, r) => ExprModel::Or(Box::new(expr_model(*l)), Box::new(expr_model(*r))),
        QueryExpr::Not(x) => ExprModel::Not(Box::new(expr_model(*x))),
    }
}

impl View for QueryExpr {
    type V = ExprModel;

    open spec fn view(&self) -> ExprModel {
        expr_model(*self)
    }
}

/// Syntax errors of the query language; each names the offending text.
#[derive(Debug, Clone)]
pub enum QueryError {
    /// The query holds no token at all.
    EmptyQuery,
    /// `field:` with nothing after the colon; holds the field name.
    EmptyValue(String),
    /// `field:>` or `field:<` with nothing after the comparison; holds the token.
    EmptyValueAfterOperator(String),
    /// A token without a colon; holds the token.
    InvalidSyntax(String),
}

pub enum QueryErrorModel {
    EmptyQuery,
    EmptyValue(Seq<char>),
    EmptyValueAfterOperator(Seq<char>),
    InvalidSyntax(Seq<char>),
}

impl View for QueryError {
    type V = QueryErrorModel;

    open spec fn view(&self) -> QueryErrorModel {
        match self {
            QueryError::EmptyQuery => QueryErrorModel::EmptyQuery,
            QueryError::EmptyValue(f) => QueryErrorModel::EmptyValue(f@),
            QueryError::EmptyValueAfterOperator(t) => QueryErrorModel::EmptyValueAfterOperator(t@),
            QueryError::InvalidSyntax(t) => QueryErrorModel::InvalidSyntax(t@),
        }
    }
}

pub open spec fn parse_result_model(r: Result<QueryExpr, QueryError>) -> Result<
    ExprModel,
    QueryErrorModel,
> {
    match r {
        Ok(e) => Ok(e@),
        Err(e) => Err(e@),
    }
}

impl QueryError {
    /// Human-readable description of the error.
    pub fn message(&self) -> (r: String) {
        match self {
            QueryError::EmptyQuery => "Empty query".to_owned(),
            QueryError::EmptyValue(f) => {
                let mut m = "Empty value for field '".to_owned();
                m.append(f.as_str());
                m.append("'. Expected format: field:value");
                m
            },
            QueryError::EmptyValueAfterOperator(t) => {
                let mut m = "Empty value after operator in '".to_owned();
                m.append(t.as_str());
                m.append("'. Expected format: field:>value or field:<value");
                m
            },
            QueryError::InvalidSyntax(t) => {
                let mut m = "Invalid query syntax: '".to_owned();
                m.append(t.as_str());
                m.append("'. Expected format: field:value, or the operators AND, OR, NOT");
                m
            },
        }
    }
}

// ---------------------------------------------------------------------------
// Tokenizer model
// ---------------------------------------------------------------------------

/// State of the tokenizer after reading a prefix: finished tokens, the token being
/// built, and whether a double quote is open.
pub open spec fn tokenizer_state(s: Seq<char>) -> (Seq<Seq<char>>, Seq<char>, bool)
    decreases s.len(),
{
    if s.len() == 0 {
        (seq![], seq![], false)
    } else {
        let (toks, cur, quoted) = tokenizer_state(s.drop_last());
        let c = s.last();
        if c == '"' {
            (toks, cur, !quoted)
        } else if c == ' ' && !quoted {
            if cur.len() > 0 {
                (toks.push(cur), seq![], quoted)
            } else {
                (toks, cur, quoted)
            }
        } else {
            (toks, cur.push(c), quoted)
        }
    }
}

/// Tokens of a query: split on spaces outside double quotes; the quotes themselves
/// are dropped.
pub open spec fn tokenize_spec(s: Seq<char>) -> Seq<Seq<char>> {
    let (toks, cur, _q) = tokenizer_state(s);
    if cur.len() > 0 {
        toks.push(cur)
    } else {
        toks
    }
}

pub open spec fn strings_model(v: Seq<String>) -> Seq<Seq<char>> {
    v.map_values(|s: String| s@)
}

// ---------------------------------------------------------------------------
// Parser model
// ---------------------------------------------------------------------------

pub open spec fn ascii_upper(c: char) -> char {
    if 'a' <= c && c <= 'z' {
        ((c as u8) - 32) as char
    } else {
        c
    }
}

/// `t` spells the upper-case keyword `w`, ignoring ASCII case.
pub open spec fn is_keyword(t: Seq<char>, w: Seq<char>) -> bool {
    t.len() == w.len() && forall|i: int| 0 <= i < t.len() ==> ascii_upper(#[trigger] t[i]) == w[i]
}

/// Index of the first keyword `w` in `t` at or after `i`, or `t.len()` if none.
pub open spec fn scan_keyword(t: Seq<Seq<char>>, w: Seq<char>, i: int) -> int
    decreases t.len() - i,
{
    if i >= t.len() {
        t.len() as int
    } else if is_keyword(t[i], w) {
        i
    } else {
        scan_keyword(t, w, i + 1)
    }
}

/// Index of the first occurrence of `c` in `s` at or after `i`, or `s.len()` if none.
pub open spec fn scan_char(s: Seq<char>, c: char, i: int) -> int
    decreases s.len() - i,
{
    if i >= s.len() {
        s.len() as int
    } else if s[i] == c {
        i
    } else {
        scan_char(s, c, i + 1)
    }
}

pub open spec fn or_word() -> Seq<char> {
    seq!['O', 'R']
}

pub open spec fn and_word() -> Seq<char> {
    seq!['A', 'N', 'D']
}

pub open spec fn not_word() -> Seq<char> {
    seq!['N', 'O', 'T']
}

/// Meaning of one `field:value` token.
pub open spec fn field_spec(tok: Seq<char>) -> Result<ExprModel, QueryErrorModel> {
    let k = scan_char(tok, ':', 0);
    if 0 <= k < tok.len() {
        let field = tok.subrange(0, k);
        let value = tok.subrange(k + 1, tok.len() as int);
        if value.len() == 0 {
            Err(QueryErrorModel::EmptyValue(field))
        } else if value[0] == '>' || value[0] == '<' {
            if value.len() == 1 {
                Err(QueryErrorModel::EmptyValueAfterOperator(tok))
            } else {
                Ok(
                    ExprModel::Field {
                        name: field,
                        operator: if value[0] == '>' {
                            Operator::GreaterThan
                        } else {
                            Operator::LessThan
                        },
                        value: value.drop_first(),
                    },
                )
            }
        } else {
            Ok(ExprModel::Field { name: field, operator: Operator::Equals, value })
        }
    } else {
        Err(QueryErrorModel::InvalidSyntax(tok))
    }
}

pub open spec fn combine(
    l: Result<ExprModel, QueryErrorModel>,
    r: Result<ExprModel, QueryErrorModel>,
    is_or: bool,
) -> Result<ExprModel, QueryErrorModel> {
    match l {
        Err(e) => Err(e),
        Ok(a) => match r {
            Err(e) => Err(e),
            Ok(b) => if is_or {
                Ok(ExprModel::Or(Box::new(a), Box::new(b)))
            } else {
                Ok(ExprModel::And(Box::new(a), Box::new(b)))
            },
        },
    }
}

/// Meaning of a token list: split at the first `OR`; failing that at the first
/// `AND`; then a leading `NOT`/`!`; then a single field, or a field implicitly
/// ANDed with the rest.
pub open spec fn parse_spec(t: Seq<Seq<char>>) -> Result<ExprModel, QueryErrorModel>
    decreases t.len(),
{
    if t.len() == 0 {
        Err(QueryErrorModel::EmptyQuery)
    } else {
        let o = scan_keyword(t, or_word(), 0);
        let a = scan_keyword(t, and_word(), 0);
        if 0 <= o < t.len() {
            combine(
                parse_spec(t.subrange(0, o)),
                parse_spec(t.subrange(o + 1, t.len() as int)),
                true,
            )
        } else if 0 <= a < t.len() {
            combine(
                parse_spec(t.subrange(0, a)),
                parse_spec(t.subrange(a + 1, t.len() as int)),
                false,
            )
        } else if is_keyword(t[0], not_word()) || t[0] == seq!['!'] {
            match parse_spec(t.drop_first()) {
                Err(e) => Err(e),
                Ok(x) => Ok(ExprModel::Not(Box::new(x))),
            }
        } else if t.len() == 1 {
            field_spec(t[0])
        } else {
            combine(field_spec(t[0]), parse_spec(t.drop_first()), false)
        }
    }
}

/// What `QueryParser::parse` returns for the text `q`.
pub open spec fn query_spec(q: Seq<char>) -> Result<ExprModel, QueryErrorModel> {
    parse_spec(tokenize_spec(q))
}

proof fn lemma_scan_keyword_bounds(t: Seq<Seq<char>>, w: Seq<char>, i: int)
    requires
        0 <= i <= t.len(),
    ensures
        i <= scan_keyword(t, w, i) <= t.len(),
    decreases t.len() - i,
{
    if i < t.len() && !is_keyword(t[i], w) {
        lemma_scan_keyword_bounds(t, w, i + 1);
    }
}

proof fn lemma_scan_char_bounds(s: Seq<char>, c: char, i: int)
    requires
        0 <= i <= s.len(),
    ensures
        i <= scan_char(s, c, i) <= s.len(),
        forall|j: int| i <= j < scan_char(s, c, i) ==> s[j] != c,
        scan_char(s, c, i) < s.len() ==> s[scan_char(s, c, i)] == c,
    decreases s.len() - i,
{
    if i < s.len() && s[i] != c {
        lemma_scan_char_bounds(s, c, i + 1);
    }
}

// ---------------------------------------------------------------------------
// Executable parser
// ---------------------------------------------------------------------------

pub fn ascii_upper_exec(c: char) -> (r: char)
    ensures
        r == ascii_upper(c),
{
    if 'a' <= c && c <= 'z' {
        ((c as u8) - 32) as char
    } else {
        c
    }
}

/// Whether `tok` spells the upper-case keyword `w`, ignoring ASCII case.
pub fn keyword_matches(tok: &str, w: &str) -> (r: bool)
    ensures
        r == is_keyword(tok@, w@),
{
    let n = tok.unicode_len();
    if n != w.unicode_len() {
        return false;
    }
    let mut i: usize = 0;
    while i < n
        invariant
            n == tok@.len(),
            n == w@.len(),
            i <= n,
            forall|j: int| 0 <= j < i ==> ascii_upper(#[trigger] tok@[j]) == w@[j],
        decreases n - i,
    {
        if ascii_upper_exec(tok.get_char(i)) != w.get_char(i) {
            return false;
        }
        i = i + 1;
    }
    true
}

pub struct QueryParser;

impl QueryParser {
    /// Parses query text into an expression tree, or names the syntax error.
    pub fn parse(query: &str) -> (r: Result<QueryExpr, QueryError>)
        ensures
            parse_result_model(r) == query_spec(query@),
    {
        let tokens = Self::tokenize(query);
        proof {
            assert(strings_model(tokens@).subrange(0, tokens@.len() as int) =~= strings_model(
                tokens@,
            ));
        }
        Self::parse_tokens(&tokens, 0, tokens.len())
    }

    /// Splits query text on spaces, keeping double-quoted runs in one token.
    pub fn tokenize(query: &str) -> (r: Vec<String>)
        ensures
            strings_model(r@) == tokenize_spec(query@),
    {
        let n = query.unicode_len();
        let mut tokens: Vec<String> = Vec::new();
        let mut current = String::new();
        let mut in_quotes = false;
        let mut i: usize = 0;
        while i < n
            invariant
                n == query@.len(),
                i <= n,
                (strings_model(tokens@), current@, in_quotes) == tokenizer_state(
                    query@.subrange(0, i as int),
                ),
            decreases n - i,
        {
            let ghost pre = query@.subrange(0, i as int);
            let ghost next = query@.subrange(0, i + 1);
            proof {
                assert(next.drop_last() =~= pre);
            }
            let c = query.get_char(i);
            if c == '"' {
                in_quotes = !in_quotes;
            } else if c == ' ' && !in_quotes {
                if current.unicode_len() > 0 {
                    let ghost old_tokens = tokens@;
                    tokens.push(current);
                    proof {
                        assert(strings_model(tokens@) =~= strings_model(old_tokens).push(
                            tokens@.last()@,
                        ));
                    }
                    current = String::new();
                }
            } else {
                let piece = query.substring_char(i, i + 1);
                current.append(piece);
                proof {
                    assert(piece@ =~= seq![c]);
                }
            }
            i = i + 1;
        }
        proof {
            assert(query@.subrange(0, n as int) =~= query@);
        }
        if current.unicode_len() > 0 {
            let ghost old_tokens = tokens@;
            tokens.push(current);
            proof {
                assert(strings_model(tokens@) =~= strings_model(old_tokens).push(
                    tokens@.last()@,
                ));
            }
        }
        tokens
    }

    /// Position of the first token in `tokens[lo..hi]` that spells the keyword `w`,
    /// or `hi` if there is none.
    fn find_keyword(tokens: &Vec<String>, lo: usize, hi: usize, w: &str) -> (r: usize)
        requires
            lo <= hi <= tokens@.len(),
        ensures
            lo <= r <= hi,
            r - lo == scan_keyword(strings_model(tokens@).subrange(lo as int, hi as int), w@, 0),
    {
        let ghost t = strings_model(tokens@).subrange(lo as int, hi as int);
        let mut i: usize = lo;
        while i < hi
            invariant
                lo <= i <= hi,
                hi <= tokens@.len(),
                t == strings_model(tokens@).subrange(lo as int, hi as int),
                scan_keyword(t, w@, 0) == scan_keyword(t, w@, i - lo),
            decreases hi - i,
        {
            assert(t[i - lo] == tokens@[i as int]@);
            if keyword_matches(tokens[i].as_str(), w) {
                return i;
            }
            i = i + 1;
        }
        i
    }

    /// Parses the tokens `tokens[lo..hi]`.
    fn parse_tokens(tokens: &Vec<String>, lo: usize, hi: usize) -> (r: Result<QueryExpr, QueryError>)
        requires
            lo <= hi <= tokens@.len(),
        ensures
            parse_result_model(r) == parse_spec(
                strings_model(tokens@).subrange(lo as int, hi as int),
            ),
        decreases hi - lo,
    {
        let ghost all = strings_model(tokens@);
        let ghost t = all.subrange(lo as int, hi as int);
        if lo == hi {
            return Err(QueryError::EmptyQuery);
        }
        proof {
            reveal_strlit("OR");
            reveal_strlit("AND");
            reveal_strlit("NOT");
            reveal_strlit("!");
            assert("OR"@ =~= or_word());
            assert("AND"@ =~= and_word());
            assert("NOT"@ =~= not_word());
            assert(t[0] == tokens@[lo as int]@);
        }
        let o = Self::find_keyword(tokens, lo, hi, "OR");
        if o < hi {
            proof {
                assert(t.subrange(0, o - lo) =~= all.subrange(lo as int, o as int));
                assert(t.subrange(o - lo + 1, t.len() as int) =~= all.subrange(o + 1, hi as int));
            }
            let left = Self::parse_tokens(tokens, lo, o)?;
            let right = Self::parse_tokens(tokens, o + 1, hi)?;
            return Ok(QueryExpr::Or(Box::new(left), Box::new(right)));
        }
        let a = Self::find_keyword(tokens, lo, hi, "AND");
        if a < hi {
            proof {
                assert(t.subrange(0, a - lo) =~= all.subrange(lo as int, a as int));
                assert(t.subrange(a - lo + 1, t.len() as int) =~= all.subrange(a + 1, hi as int));
            }
            let left = Self::parse_tokens(tokens, lo, a)?;
            let right = Self::parse_tokens(tokens, a + 1, hi)?;
            return Ok(QueryExpr::And(Box::new(left), Box::new(right)));
        }
        proof {
            assert(t.drop_first() =~= all.subrange(lo + 1, hi as int));
        }
        let first = tokens[lo].as_str();
        if keyword_matches(first, "NOT") || (first.unicode_len() == 1 && first.get_char(0) == '!') {
            proof {
                if !is_keyword(t[0], not_word()) {
                    assert(t[0] =~= seq!['!']);
                }
            }
            let inner = Self::parse_tokens(tokens, lo + 1, hi)?;
            return Ok(QueryExpr::Not(Box::new(inner)));
        }
        proof {
            if t[0] == seq!['!'] {
                assert(t[0].len() == 1 && t[0][0] == '!');
            }
        }
        if hi - lo == 1 {
            return Self::parse_field_expr(first);
        }
        let left = Self::parse_field_expr(first)?;
        let right = Self::parse_tokens(tokens, lo + 1, hi)?;
        Ok(QueryExpr::And(Box::new(left), Box::new(right)))
    }

    /// Parses one `field:value`, `field:>value` or `field:<value` token.
    pub fn parse_field_expr(token: &str) -> (r: Result<QueryExpr, QueryError>)
        ensures
            parse_result_model(r) == field_spec(token@),
    {
        let n = token.unicode_len();
        let mut k: usize = 0;
        while k < n
            invariant
                n == token@.len(),
                k <= n,
                scan_char(token@, ':', 0) == scan_char(token@, ':', k as int),
            ensures
                k <= n,
                scan_char(token@, ':', 0) == k,
            decreases n - k,
        {
            if token.get_char(k) == ':' {
                break;
            }
            k = k + 1;
        }
        if k == n {
            return Err(QueryError::InvalidSyntax(token.to_owned()));
        }
        let ghost value_model = token@.subrange(k + 1, n as int);
        proof {
            assert(scan_char(token@, ':', 0) == k);
            assert(value_model.len() == n - k - 1);
        }
        let field = token.substring_char(0, k).to_owned();
        if k + 1 == n {
            return Err(QueryError::EmptyValue(field));
        }
        let c = token.get_char(k + 1);
        assert(value_model[0] == c);
        if c == '>' || c == '<' {
            if k + 2 == n {
                return Err(QueryError::EmptyValueAfterOperator(token.to_owned()));
            }
            let value = token.substring_char(k + 2, n).to_owned();
            let operator = if c == '>' {
                Operator::GreaterThan
            } else {
                Operator::LessThan
            };
            proof {
                assert(value@ =~= token@.subrange(k + 1, n as int).drop_first());
            }
            Ok(QueryExpr::Field { name: field, operator, value })
        } else {
            let value = token.substring_char(k + 1, n).to_owned();
            Ok(QueryExpr::Field { name: field, operator: Operator::Equals, value })
        }
    }
}

} // verus!
