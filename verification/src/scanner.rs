//! The structural scanner: from the look of a line it tells which
//! declaration the line opens, and which nesting levels the line closes.
use crate::location::{
    parent_of, popped, rooted, Location, LocationKind, LocationNode, LocationNodeView,
};
use crate::pattern::{
    captures, group, group_text, regex_captures, Groups, CONSTRUCTOR_PATTERN, FUNCTION_PATTERN,
    TYPE_PATTERN, VARIABLE_PATTERN,
};
use crate::text::{chars_of, contains, ends_with, has_infix, has_prefix, has_suffix, same_text, starts_with};
use vstd::prelude::*;

verus! {

/// A word before a parenthesis that does not start a function's signature.
pub open spec fn is_keyword(word: Seq<char>) -> bool {
    word == "new"@ || word == "return"@ || word == "throw"@
}

/// The first word and the name of the function whose signature was matched.
pub open spec fn function_match(caps: Option<Seq<Option<Seq<char>>>>) -> Option<
    (Seq<char>, Seq<char>),
> {
    match caps {
        Some(groups) => match (group_text(groups, 1), group_text(groups, 2)) {
            (Some(word), Some(name)) => Some((word, name)),
            _ => None,
        },
        None => None,
    }
}

/// The name in group 1 of a match.
pub open spec fn name_match(caps: Option<Seq<Option<Seq<char>>>>) -> Option<Seq<char>> {
    match caps {
        Some(groups) => group_text(groups, 1),
        None => None,
    }
}

/// The kind that a type's keyword stands for.
pub open spec fn type_kind(keyword: Seq<char>) -> Option<LocationKind> {
    if keyword == "class"@ {
        Some(LocationKind::Class)
    } else if keyword == "enum"@ {
        Some(LocationKind::Enum)
    } else if keyword == "interface"@ {
        Some(LocationKind::Interface)
    } else {
        None
    }
}

/// The kind and the name of the type whose declaration was matched.
pub open spec fn type_match(caps: Option<Seq<Option<Seq<char>>>>) -> Option<
    (LocationKind, Seq<char>),
> {
    match caps {
        Some(groups) => match (group_text(groups, 3), group_text(groups, 4)) {
            (Some(keyword), Some(name)) => match type_kind(keyword) {
                Some(kind) => Some((kind, name)),
                None => None,
            },
            _ => None,
        },
        None => None,
    }
}

/// Whether the line holds a comment or a string: what looks like a
/// declaration on such a line is not taken for one.
pub open spec fn is_quoted(line: Seq<char>) -> bool {
    has_infix(line, "//"@) || has_infix(line, "\""@)
}

/// Whether a function's signature on `line` only declares the function: the
/// line ends in `;`, or in `,` with the next line ending in `;`.
pub open spec fn only_declares(line: Seq<char>, next_line: Option<Seq<char>>) -> bool {
    has_suffix(line, ";"@) || (has_suffix(line, ","@) && (next_line matches Some(next)
        && has_suffix(next, ";"@)))
}

/// The node that the four matches on a line open, if any. A quoted line
/// opens nothing. On any other line a function's signature comes first,
/// unless its first word is a keyword; then a constructor; then a type; then
/// a variable.
pub open spec fn opened_by(
    function: Option<Seq<Option<Seq<char>>>>,
    constructor: Option<Seq<Option<Seq<char>>>>,
    declared_type: Option<Seq<Option<Seq<char>>>>,
    variable: Option<Seq<Option<Seq<char>>>>,
    line: Seq<char>,
    next_line: Option<Seq<char>>,
) -> Option<LocationNodeView> {
    let signature = match function_match(function) {
        Some((word, name)) => if is_keyword(word) {
            None
        } else {
            Some(name)
        },
        None => None,
    };
    if is_quoted(line) {
        None
    } else if signature is Some {
        Some(
            LocationNodeView {
                kind: LocationKind::Method,
                name: signature->Some_0,
                is_function_declaration: only_declares(line, next_line),
            },
        )
    } else if name_match(constructor) is Some {
        Some(
            LocationNodeView {
                kind: LocationKind::Constructor,
                name: name_match(constructor)->Some_0,
                is_function_declaration: false,
            },
        )
    } else if type_match(declared_type) is Some {
        Some(
            LocationNodeView {
                kind: type_match(declared_type)->Some_0.0,
                name: type_match(declared_type)->Some_0.1,
                is_function_declaration: false,
            },
        )
    } else if name_match(variable) is Some {
        Some(
            LocationNodeView {
                kind: LocationKind::Variable,
                name: name_match(variable)->Some_0,
                is_function_declaration: false,
            },
        )
    } else {
        None
    }
}

/// The node that `line` opens, if any.
pub open spec fn opened_node(line: Seq<char>, next_line: Option<Seq<char>>) -> Option<
    LocationNodeView,
> {
    opened_by(
        regex_captures(FUNCTION_PATTERN@, line),
        regex_captures(CONSTRUCTOR_PATTERN@, line),
        regex_captures(TYPE_PATTERN@, line),
        regex_captures(VARIABLE_PATTERN@, line),
        line,
        next_line,
    )
}

/// The cursor as it stands on `line`: one level further in where the line
/// opens a declaration.
pub open spec fn scanned_before(
    cursor: Seq<LocationNodeView>,
    line: Seq<char>,
    next_line: Option<Seq<char>>,
) -> Seq<LocationNodeView> {
    match opened_node(line, next_line) {
        Some(node) => cursor.push(node),
        None => cursor,
    }
}

/// The cursor after the closing brace at the start of `line`, if there is
/// one: at no indentation it closes all but the file, at two spaces all but
/// the file and one level, at four spaces all but the file and two levels.
pub open spec fn closed_by(cursor: Seq<LocationNodeView>, line: Seq<char>) -> Seq<LocationNodeView> {
    if has_prefix(line, "}"@) {
        popped(cursor, 0)
    } else if has_prefix(line, "  }"@) {
        popped(cursor, 1)
    } else if has_prefix(line, "    }"@) {
        popped(cursor, 2)
    } else {
        cursor
    }
}

/// The cursor as it stands after `line`: braces closed, then a function
/// that was only declared left, then a variable left, then the one-line class
/// `ParseError` left.
pub open spec fn scanned_after(cursor: Seq<LocationNodeView>, line: Seq<char>) -> Seq<
    LocationNodeView,
> {
    let closed = closed_by(cursor, line);
    let declared = if closed.len() > 0 && closed.last().is_function_declaration {
        parent_of(closed)
    } else {
        closed
    };
    let valued = if declared.len() > 0 && declared.last().kind == LocationKind::Variable {
        parent_of(declared)
    } else {
        declared
    };
    if has_infix(line, "class ParseError"@) {
        parent_of(valued)
    } else {
        valued
    }
}

/// The first word and the name that a match of a function's signature
/// holds.
pub fn function_of(caps: &Option<Groups>) -> (found: Option<(String, String)>)
    ensures
        found.deep_view() == function_match(caps.deep_view()),
{
    match caps {
        Some(groups) => match (group(groups, 1), group(groups, 2)) {
            (Some(word), Some(name)) => Some((word.clone(), name.clone())),
            _ => None,
        },
        None => None,
    }
}

/// The name that group 1 of a match holds.
pub fn name_of(caps: &Option<Groups>) -> (found: Option<String>)
    ensures
        found.deep_view() == name_match(caps.deep_view()),
{
    match caps {
        Some(groups) => match group(groups, 1) {
            Some(name) => Some(name.clone()),
            None => None,
        },
        None => None,
    }
}

/// The kind and the name that a match of a type's declaration holds.
pub fn type_of(caps: &Option<Groups>) -> (found: Option<(LocationKind, String)>)
    ensures
        found.deep_view() == type_match(caps.deep_view()),
{
    match caps {
        Some(groups) => match (group(groups, 3), group(groups, 4)) {
            (Some(keyword), Some(name)) => {
                if same_text(keyword.as_str(), "class") {
                    Some((LocationKind::Class, name.clone()))
                } else if same_text(keyword.as_str(), "enum") {
                    Some((LocationKind::Enum, name.clone()))
                } else if same_text(keyword.as_str(), "interface") {
                    Some((LocationKind::Interface, name.clone()))
                } else {
                    None
                }
            },
            _ => None,
        },
        None => None,
    }
}

/// Whether `word` does not start a function's signature.
pub fn keyword(word: &str) -> (b: bool)
    ensures
        b == is_keyword(word@),
{
    same_text(word, "new") || same_text(word, "return") || same_text(word, "throw")
}

/// The node that the four matches on `line` open, if any.
pub fn node_opened_by(
    function: &Option<Groups>,
    constructor: &Option<Groups>,
    declared_type: &Option<Groups>,
    variable: &Option<Groups>,
    line: &str,
    next_line: Option<&str>,
) -> (node: Option<LocationNode>)
    ensures
        node.deep_view() == opened_by(
            function.deep_view(),
            constructor.deep_view(),
            declared_type.deep_view(),
            variable.deep_view(),
            line@,
            next_line.deep_view(),
        ),
{
    let text = chars_of(line);
    if contains(&text, "//") || contains(&text, "\"") {
        return None;
    }
    if let Some((word, name)) = function_of(function) {
        if !keyword(word.as_str()) {
            let mut declares = ends_with(&text, ";");
            if !declares && ends_with(&text, ",") {
                if let Some(next) = next_line {
                    let next_text = chars_of(next);
                    declares = ends_with(&next_text, ";");
                }
            }
            return Some(
                LocationNode {
                    kind: LocationKind::Method,
                    name,
                    is_function_declaration: declares,
                },
            );
        }
    }
    if let Some(name) = name_of(constructor) {
        return Some(
            LocationNode { kind: LocationKind::Constructor, name, is_function_declaration: false },
        );
    }
    if let Some((kind, name)) = type_of(declared_type) {
        return Some(LocationNode { kind, name, is_function_declaration: false });
    }
    if let Some(name) = name_of(variable) {
        return Some(
            LocationNode { kind: LocationKind::Variable, name, is_function_declaration: false },
        );
    }
    None
}

/// The node that `line` opens, if any.
pub fn open_node(line: &str, next_line: Option<&str>) -> (node: Option<LocationNode>)
    ensures
        node.deep_view() == opened_node(line@, next_line.deep_view()),
{
    let text = chars_of(line);
    if contains(&text, "//") || contains(&text, "\"") {
        return None;
    }
    let function = captures(FUNCTION_PATTERN, line);
    let constructor = captures(CONSTRUCTOR_PATTERN, line);
    let declared_type = captures(TYPE_PATTERN, line);
    let variable = captures(VARIABLE_PATTERN, line);
    node_opened_by(&function, &constructor, &declared_type, &variable, line, next_line)
}

/// The cursor as it stands after `line`.
pub fn leave_line(cursor: &Location, line: &str) -> (after: Location)
    ensures
        after@ == scanned_after(cursor@, line@),
{
    let text = chars_of(line);
    let mut after = if starts_with(&text, "}") {
        cursor.pop_to_depth(0)
    } else if starts_with(&text, "  }") {
        cursor.pop_to_depth(1)
    } else if starts_with(&text, "    }") {
        cursor.pop_to_depth(2)
    } else {
        cursor.clone()
    };
    let n = after.nodes.len();
    if n > 0 && after.nodes[n - 1].is_function_declaration {
        after = after.parent();
    }
    let n = after.nodes.len();
    if n > 0 && after.nodes[n - 1].kind == LocationKind::Variable {
        after = after.parent();
    }
    if contains(&text, "class ParseError") {
        after = after.parent();
    }
    after
}

/// A cursor that starts at a file still does so after any line, and no file
/// ever comes to stand inside it.
pub proof fn lemma_scan_keeps_root(
    cursor: Seq<LocationNodeView>,
    line: Seq<char>,
    next_line: Option<Seq<char>>,
)
    requires
        rooted(cursor),
    ensures
        rooted(scanned_before(cursor, line, next_line)),
        rooted(scanned_after(cursor, line)),
        scanned_before(cursor, line, next_line)[0] == cursor[0],
        scanned_after(cursor, line)[0] == cursor[0],
{
    let closed = closed_by(cursor, line);
    assert(rooted(closed) && closed[0] == cursor[0]);
    let declared = if closed.len() > 0 && closed.last().is_function_declaration {
        parent_of(closed)
    } else {
        closed
    };
    assert(rooted(declared) && declared[0] == cursor[0]);
    let valued = if declared.len() > 0 && declared.last().kind == LocationKind::Variable {
        parent_of(declared)
    } else {
        declared
    };
    assert(rooted(valued) && valued[0] == cursor[0]);
    assert(rooted(parent_of(valued)) && parent_of(valued)[0] == cursor[0]);
}

} // verus!
