use vstd::prelude::*;

verus! {

/// An error from parsing an alg or one of its parts: the text does not
/// follow the alg grammar.
#[derive(Debug)]
pub struct AlgParseError {
    pub description: String,
}

impl<'a> From<&'a str> for AlgParseError {
    fn from(description: &'a str) -> (r: Self) {
        AlgParseError { description: description.to_owned() }
    }
}

impl<'a> vstd::std_specs::convert::FromSpecImpl<&'a str> for AlgParseError {
    open spec fn obeys_from_spec() -> bool {
        false
    }

    open spec fn from_spec(description: &'a str) -> Self {
        AlgParseError { description: arbitrary() }
    }
}

impl From<String> for AlgParseError {
    fn from(description: String) -> (r: Self) {
        AlgParseError { description }
    }
}

impl vstd::std_specs::convert::FromSpecImpl<String> for AlgParseError {
    open spec fn obeys_from_spec() -> bool {
        true
    }

    open spec fn from_spec(description: String) -> Self {
        AlgParseError { description }
    }
}


/// Parses a run of decimal digits into a `u32`; fails without digits or
/// on overflow.
#[verifier::loop_isolation(false)]
fn parse_decimal_u32(s: &str, len: usize, i: usize) -> (r: Option<(u32, usize)>)
    requires
        len == s@.len(),
        i <= len,
    ensures
        r matches Some((v, j)) ==> i < j <= len,
{
    let mut j = i;
    let mut value: u32 = 0;
    let mut any = false;
    while j < len
        invariant
            i <= j <= len,
            any ==> j > i,
            !any ==> j == i,
        decreases len - j,
    {
        let c = s.get_char(j);
        let d: u32 = if c == '0' {
            0
        } else if c == '1' {
            1
        } else if c == '2' {
            2
        } else if c == '3' {
            3
        } else if c == '4' {
            4
        } else if c == '5' {
            5
        } else if c == '6' {
            6
        } else if c == '7' {
            7
        } else if c == '8' {
            8
        } else if c == '9' {
            9
        } else {
            10
        };
        if d == 10 {
            break;
        }
        if value > (u32::MAX - d) / 10 {
            return None;
        }
        value = value * 10 + d;
        any = true;
        j = j + 1;
    }
    if any {
        Some((value, j))
    } else {
        None
    }
}

/// Whether a character can appear in a move family name.
fn is_family_char(c: char) -> (r: bool) {
    (c >= 'a' && c <= 'z') || (c >= 'A' && c <= 'Z') || c == '_'
}

/// Parses a nonempty family name.
#[verifier::loop_isolation(false)]
fn parse_family(s: &str, len: usize, i: usize) -> (r: Option<(String, usize)>)
    requires
        len == s@.len(),
        i <= len,
    ensures
        r matches Some((f, j)) ==> i < j <= len,
{
    let mut j = i;
    let mut family = String::new();
    while j < len
        invariant
            i <= j <= len,
        decreases len - j,
    {
        let c = s.get_char(j);
        if !is_family_char(c) {
            break;
        }
        string_push(&mut family, c);
        j = j + 1;
    }
    if j > i {
        Some((family, j))
    } else {
        None
    }
}

/// Relies on `String::push`: appends one character at the end.
#[verifier::external_body]
fn string_push(s: &mut String, c: char)
    ensures
        final(s)@ == old(s)@ + seq![c],
{
    s.push(c);
}

/// Parses an optional layer or range prefix (`2` or `2-7`).
fn parse_move_prefix(s: &str, len: usize, i: usize) -> (r: (Option<crate::alg::MovePrefix>, usize))
    requires
        len == s@.len(),
        i <= len,
    ensures
        i <= r.1 <= len,
{
    match parse_decimal_u32(s, len, i) {
        None => (None, i),
        Some((outer, j)) => {
            if j < len && s.get_char(j) == '-' {
                match parse_decimal_u32(s, len, j + 1) {
                    Some((inner, k)) => (
                        Some(
                            crate::alg::MovePrefix::Range(
                                crate::alg::MoveRange { outer_layer: outer, inner_layer: inner },
                            ),
                        ),
                        k,
                    ),
                    None => (None, i),
                }
            } else {
                (Some(crate::alg::MovePrefix::Layer(crate::alg::MoveLayer { layer: outer })), j)
            }
        },
    }
}

/// Parses one move (`R`, `2-7R2'`, `R++`, `R2+`, `/`).
fn parse_move_at(s: &str, len: usize, i: usize) -> (r: Option<(crate::alg::Move, usize)>)
    requires
        len == s@.len(),
        i <= len,
    ensures
        r matches Some((m, j)) ==> i < j <= len,
{
    if i < len && s.get_char(i) == '/' {
        let quantum = crate::alg::QuantumMove::new("_SLASH_", None);
        return Some((crate::alg::Move { quantum, amount: 1 }, i + 1));
    }
    let (prefix, after_prefix) = parse_move_prefix(s, len, i);
    let (family, after_family) = match parse_family(s, len, after_prefix) {
        Some((family, after_family)) => (family, after_family),
        None => {
            return None;
        },
    };
    // Pochmann notation: `R++` or `R--`.
    if after_family < len && after_family + 1 < len {
        let c0 = s.get_char(after_family);
        let c1 = s.get_char(after_family + 1);
        if (c0 == '+' && c1 == '+') || (c0 == '-' && c1 == '-') {
            let mut marked = family;
            marked.append("_PLUSPLUS_");
            let quantum = crate::alg::QuantumMove { family: marked, prefix };
            let amount: i32 = if c0 == '+' {
                1
            } else {
                -1
            };
            return Some((crate::alg::Move { quantum, amount }, after_family + 2));
        }
    }
    match parse_decimal_u32(s, len, after_family) {
        Some((number, after_number)) => {
            if number > i32::MAX as u32 {
                return None;
            }
            // Clock notation: an explicit amount followed by `+` or `-`.
            if after_number < len && (s.get_char(after_number) == '+' || s.get_char(after_number)
                == '-') {
                let c = s.get_char(after_number);
                let mut marked = family;
                marked.append("_PLUS_");
                let quantum = crate::alg::QuantumMove { family: marked, prefix };
                let amount: i32 = if c == '+' {
                    number as i32
                } else {
                    -(number as i32)
                };
                return Some((crate::alg::Move { quantum, amount }, after_number + 1));
            }
            let quantum = crate::alg::QuantumMove { family, prefix };
            if after_number < len && s.get_char(after_number) == '\'' {
                let amount: i32 = -(number as i32);
                Some((crate::alg::Move { quantum, amount }, after_number + 1))
            } else {
                Some((crate::alg::Move { quantum, amount: number as i32 }, after_number))
            }
        },
        None => {
            let quantum = crate::alg::QuantumMove { family, prefix };
            if after_family < len && s.get_char(after_family) == '\'' {
                Some((crate::alg::Move { quantum, amount: -1 }, after_family + 1))
            } else {
                Some((crate::alg::Move { quantum, amount: 1 }, after_family))
            }
        },
    }
}

/// Parses an optional amount suffix (`3`, `'`, `3'`), defaulting to 1.
fn parse_amount_suffix(s: &str, len: usize, i: usize) -> (r: Option<(i32, usize)>)
    requires
        len == s@.len(),
        i <= len,
    ensures
        r matches Some((a, j)) ==> i <= j <= len,
{
    match parse_decimal_u32(s, len, i) {
        Some((number, j)) => {
            if number > i32::MAX as u32 {
                return None;
            }
            if j < len && s.get_char(j) == '\'' {
                Some((-(number as i32), j + 1))
            } else {
                Some((number as i32, j))
            }
        },
        None => {
            if i < len && s.get_char(i) == '\'' {
                Some((-1i32, i + 1))
            } else {
                Some((1i32, i))
            }
        },
    }
}


/// Consumes a run of spaces; reports whether there was at least one.
#[verifier::loop_isolation(false)]
fn parse_spaces(s: &str, len: usize, i: usize) -> (r: (bool, usize))
    requires
        len == s@.len(),
        i <= len,
    ensures
        i <= r.1 <= len,
        r.0 ==> i < r.1,
        !r.0 ==> i == r.1,
{
    let mut j = i;
    while j < len
        invariant
            i <= j <= len,
        decreases len - j,
    {
        if s.get_char(j) != ' ' {
            break;
        }
        j = j + 1;
    }
    (j > i, j)
}

/// Parses a signed decimal number (for Square-1 tuples).
fn parse_signed_i32(s: &str, len: usize, i: usize) -> (r: Option<(i32, usize)>)
    requires
        len == s@.len(),
        i <= len,
    ensures
        r matches Some((v, j)) ==> i < j <= len,
{
    if i < len && s.get_char(i) == '-' {
        match parse_decimal_u32(s, len, i + 1) {
            Some((number, j)) => {
                if number > i32::MAX as u32 {
                    None
                } else {
                    Some((-(number as i32), j))
                }
            },
            None => None,
        }
    } else {
        match parse_decimal_u32(s, len, i) {
            Some((number, j)) => {
                if number > i32::MAX as u32 {
                    None
                } else {
                    Some((number as i32, j))
                }
            },
            None => None,
        }
    }
}

/// Parses a Square-1 tuple body after its `(`: `a, b)`.
fn parse_square1_tuple_rest(s: &str, len: usize, i: usize) -> (r: Option<
    (crate::alg::Grouping, usize),
>)
    requires
        len == s@.len(),
        i <= len,
    ensures
        r matches Some((g, j)) ==> i < j <= len,
{
    let (top, after_top) = match parse_signed_i32(s, len, i) {
        Some(pair) => pair,
        None => {
            return None;
        },
    };
    if !(after_top < len && s.get_char(after_top) == ',') {
        return None;
    }
    if !(after_top + 1 < len && s.get_char(after_top + 1) == ' ') {
        return None;
    }
    let (bottom, after_bottom) = match parse_signed_i32(s, len, after_top + 2) {
        Some(pair) => pair,
        None => {
            return None;
        },
    };
    if !(after_bottom < len && s.get_char(after_bottom) == ')') {
        return None;
    }
    let top_move = crate::alg::Move {
        quantum: crate::alg::special_notation::u_sq_quantum(),
        amount: top,
    };
    let bottom_move = crate::alg::Move {
        quantum: crate::alg::special_notation::d_sq_quantum(),
        amount: bottom,
    };
    let mut nodes: Vec<crate::alg::AlgNode> = Vec::new();
    nodes.push(crate::alg::AlgNode::MoveNode(top_move));
    nodes.push(crate::alg::AlgNode::MoveNode(bottom_move));
    let alg = crate::alg::Alg { nodes };
    Some((crate::alg::Grouping { alg: Box::new(alg), amount: 1 }, after_bottom + 1))
}

/// Parses a line comment after its `//`, up to the newline.
#[verifier::loop_isolation(false)]
fn parse_line_comment_rest(s: &str, len: usize, i: usize) -> (r: Option<
    (crate::alg::LineComment, usize),
>)
    requires
        len == s@.len(),
        i <= len,
    ensures
        r matches Some((c, j)) ==> i <= j <= len,
{
    let mut j = i;
    let mut text = String::new();
    while j < len
        invariant
            i <= j <= len,
            !text@.contains('\n'),
        decreases len - j,
    {
        let c = s.get_char(j);
        if c == '\n' {
            break;
        }
        let ghost before = text@;
        string_push(&mut text, c);
        proof {
            assert(forall|k: int| 0 <= k < text@.len() ==> text@[k] != '\n');
        }
        j = j + 1;
    }
    match crate::alg::LineComment::try_new(text.as_str()) {
        Ok(comment) => Some((comment, j)),
        Err(_) => None,
    }
}

/// Parses one node of an alg.
fn parse_node_at(s: &str, len: usize, i: usize) -> (r: Option<(crate::alg::AlgNode, usize)>)
    requires
        len == s@.len(),
        i <= len,
    ensures
        r matches Some((n, j)) ==> i < j <= len,
    decreases len - i, 1int,
{
    if i >= len {
        return None;
    }
    let c = s.get_char(i);
    if c == '/' && i + 1 < len && s.get_char(i + 1) == '/' {
        match parse_line_comment_rest(s, len, i + 2) {
            Some((comment, j)) => {
                return Some((crate::alg::AlgNode::LineCommentNode(comment), j));
            },
            None => {
                return None;
            },
        }
    }
    if c == '.' {
        return Some((crate::alg::AlgNode::PauseNode(crate::alg::Pause {  }), i + 1));
    }
    if c == '\n' {
        return Some((crate::alg::AlgNode::NewlineNode(crate::alg::Newline {  }), i + 1));
    }
    if c == '(' {
        return parse_grouping_at(s, len, i);
    }
    if c == '[' {
        return parse_bracketed_at(s, len, i);
    }
    match parse_move_at(s, len, i) {
        Some((m, j)) => Some((crate::alg::AlgNode::MoveNode(m), j)),
        None => None,
    }
}

/// Parses a grouping starting at its `(`: either `(A)n` or a Square-1
/// tuple `(a, b)`.
fn parse_grouping_at(s: &str, len: usize, i: usize) -> (r: Option<(crate::alg::AlgNode, usize)>)
    requires
        len == s@.len(),
        i <= len,
        i < len && s@[i as int] == '(',
    ensures
        r matches Some((n, j)) ==> i < j <= len,
    decreases len - i, 0int,
{
    match parse_alg_at(s, len, i + 1) {
        Some((alg, after_alg)) => {
            if after_alg < len && s.get_char(after_alg) == ')' {
                match parse_amount_suffix(s, len, after_alg + 1) {
                    Some((amount, j)) => {
                        return Some(
                            (
                                crate::alg::AlgNode::GroupingNode(
                                    crate::alg::Grouping { alg: Box::new(alg), amount },
                                ),
                                j,
                            ),
                        );
                    },
                    None => {
                    },
                }
            }
        },
        None => {
        },
    }
    match parse_square1_tuple_rest(s, len, i + 1) {
        Some((grouping, j)) => Some((crate::alg::AlgNode::GroupingNode(grouping), j)),
        None => None,
    }
}

/// Parses a commutator `[A, B]` or conjugate `[A: B]` starting at its
/// `[`; a trailing amount other than 1 wraps it in a grouping.
fn parse_bracketed_at(s: &str, len: usize, i: usize) -> (r: Option<(crate::alg::AlgNode, usize)>)
    requires
        len == s@.len(),
        i <= len,
        i < len && s@[i as int] == '[',
    ensures
        r matches Some((n, j)) ==> i < j <= len,
    decreases len - i, 0int,
{
    let (a, after_a) = match parse_alg_at(s, len, i + 1) {
        Some(pair) => pair,
        None => {
            return None;
        },
    };
    if after_a >= len {
        return None;
    }
    let separator = s.get_char(after_a);
    if separator != ',' && separator != ':' {
        return None;
    }
    let (b, after_b) = match parse_alg_at(s, len, after_a + 1) {
        Some(pair) => pair,
        None => {
            return None;
        },
    };
    if !(after_b < len && s.get_char(after_b) == ']') {
        return None;
    }
    let node = if separator == ',' {
        crate::alg::AlgNode::CommutatorNode(
            crate::alg::Commutator { a: Box::new(a), b: Box::new(b) },
        )
    } else {
        crate::alg::AlgNode::ConjugateNode(
            crate::alg::Conjugate { a: Box::new(a), b: Box::new(b) },
        )
    };
    let (amount, j) = match parse_amount_suffix(s, len, after_b + 1) {
        Some(pair) => pair,
        None => {
            return None;
        },
    };
    if amount == 1 {
        Some((node, j))
    } else {
        let mut nodes: Vec<crate::alg::AlgNode> = Vec::new();
        nodes.push(node);
        let alg = crate::alg::Alg { nodes };
        Some(
            (
                crate::alg::AlgNode::GroupingNode(
                    crate::alg::Grouping { alg: Box::new(alg), amount },
                ),
                j,
            ),
        )
    }
}

/// Parses a whole alg: nodes separated by spaces, rejecting crowded
/// nodes (two non-newline nodes with nothing between them, unless the
/// first is a newline or a comment). Stops before any character no node
/// can start with.
#[verifier::loop_isolation(false)]
fn parse_alg_at(s: &str, len: usize, i: usize) -> (r: Option<(crate::alg::Alg, usize)>)
    requires
        len == s@.len(),
        i <= len,
    ensures
        r matches Some((a, j)) ==> i <= j <= len,
    decreases len - i, 2int,
{
    let mut nodes: Vec<crate::alg::AlgNode> = Vec::new();
    let mut j = i;
    let mut prev_exempt = true;
    loop
        invariant
            i <= j <= len,
            len == s@.len(),
        decreases len - j,
    {
        let (had_spaces, after_spaces) = parse_spaces(s, len, j);
        match parse_node_at(s, len, after_spaces) {
            Some((node, after_node)) => {
                let is_newline = match &node {
                    crate::alg::AlgNode::NewlineNode(_) => true,
                    _ => false,
                };
                if !is_newline && !had_spaces && !prev_exempt {
                    return None;
                }
                prev_exempt = match &node {
                    crate::alg::AlgNode::NewlineNode(_) => true,
                    crate::alg::AlgNode::LineCommentNode(_) => true,
                    _ => false,
                };
                nodes.push(node);
                j = after_node;
            },
            None => {
                let alg = crate::alg::Alg { nodes };
                return Some((alg, after_spaces));
            },
        }
    }
}

/// Parses a whole string as an alg; the text must hold nothing else.
pub fn parse_alg_string(s: &str) -> (r: Result<crate::alg::Alg, AlgParseError>) {
    let len = s.unicode_len();
    match parse_alg_at(s, len, 0) {
        Some((alg, j)) => {
            if j == len {
                Ok(alg)
            } else {
                Err(AlgParseError { description: String::from_str("Invalid alg string") })
            }
        },
        None => Err(AlgParseError { description: String::from_str("Invalid alg string") }),
    }
}

/// Parses a whole string as one move; the text must hold nothing else.
pub fn parse_move_string(s: &str) -> (r: Result<crate::alg::Move, AlgParseError>) {
    let len = s.unicode_len();
    match parse_move_at(s, len, 0) {
        Some((m, j)) => {
            if j == len {
                Ok(m)
            } else {
                Err(AlgParseError { description: String::from_str("Invalid move string") })
            }
        },
        None => Err(AlgParseError { description: String::from_str("Invalid move string") }),
    }
}

/// Parses a whole string as one quantum move; the text must hold nothing
/// else.
pub fn parse_quantum_move_string(s: &str) -> (r: Result<crate::alg::QuantumMove, AlgParseError>) {
    let len = s.unicode_len();
    let (prefix, after_prefix) = parse_move_prefix(s, len, 0);
    match parse_family(s, len, after_prefix) {
        Some((family, j)) => {
            if j == len {
                Ok(crate::alg::QuantumMove { family, prefix })
            } else {
                Err(AlgParseError { description: String::from_str("Invalid move range string") })
            }
        },
        None => Err(AlgParseError { description: String::from_str("Invalid move range string") }),
    }
}

impl std::str::FromStr for crate::alg::Alg {
    type Err = AlgParseError;

    fn from_str(s: &str) -> Result<Self, AlgParseError> {
        parse_alg_string(s)
    }
}

impl<'a> vstd::std_specs::convert::TryFromSpecImpl<&'a str> for crate::alg::Alg {
    open spec fn obeys_try_from_spec() -> bool {
        false
    }

    open spec fn try_from_spec(input: &'a str) -> Result<Self, AlgParseError> {
        arbitrary()
    }
}

impl<'a> TryFrom<&'a str> for crate::alg::Alg {
    type Error = AlgParseError;

    fn try_from(input: &'a str) -> Result<Self, AlgParseError> {
        parse_alg_string(input)
    }
}

impl std::str::FromStr for crate::alg::Move {
    type Err = AlgParseError;

    fn from_str(s: &str) -> Result<Self, AlgParseError> {
        parse_move_string(s)
    }
}

impl<'a> vstd::std_specs::convert::TryFromSpecImpl<&'a str> for crate::alg::Move {
    open spec fn obeys_try_from_spec() -> bool {
        false
    }

    open spec fn try_from_spec(input: &'a str) -> Result<Self, AlgParseError> {
        arbitrary()
    }
}

impl<'a> TryFrom<&'a str> for crate::alg::Move {
    type Error = AlgParseError;

    fn try_from(input: &'a str) -> Result<Self, AlgParseError> {
        parse_move_string(input)
    }
}

impl std::str::FromStr for crate::alg::QuantumMove {
    type Err = AlgParseError;

    fn from_str(s: &str) -> Result<Self, AlgParseError> {
        parse_quantum_move_string(s)
    }
}

impl<'a> vstd::std_specs::convert::TryFromSpecImpl<&'a str> for crate::alg::QuantumMove {
    open spec fn obeys_try_from_spec() -> bool {
        false
    }

    open spec fn try_from_spec(input: &'a str) -> Result<Self, AlgParseError> {
        arbitrary()
    }
}

impl<'a> TryFrom<&'a str> for crate::alg::QuantumMove {
    type Error = AlgParseError;

    fn try_from(input: &'a str) -> Result<Self, AlgParseError> {
        parse_quantum_move_string(input)
    }
}

} // verus!
