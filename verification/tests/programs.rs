//! Programs that use the builtins, and what they print.
//!
//! The programs run on a small evaluator that walks the parsed program. It keeps the variables, the
//! calls and the exceptions, and takes everything a builtin decides from the library: the objects
//! live in a [`Realm`], and every function written in Rust is called through it.

use std::collections::HashMap;
use std::cell::RefCell;
use std::rc::Rc;
use std::time::{Instant, SystemTime, UNIX_EPOCH};

use katsu::api::{Error, Runtime};
use katsu::builtins::convert::{describe_error, to_text};
use katsu::builtins::dispatch::call_native;
use katsu::builtins::realm::Realm;
use katsu::builtins::value::{Attributes, ErrorKind, Native, RuntimeError, Stream, Value};
use katsu::builtins::{console, error, function, globals, json, object, performance, string};

// The parser.

#[derive(Clone, PartialEq, Debug)]
enum Token {
    Number(f64),
    Text(String),
    Word(String),
    Sign(String),
    End,
}

const SIGNS: [&str; 31] = [
    "===", "!==", "++", "+=", "&&", "||", "<=", ">=", "{", "}", "(", ")", "[", "]", ";", ",", ".", ":",
    "?", "=", "+", "-", "*", "/", "<", ">", "!", "==", "!=", "%", "--",
];

fn tokens(source: &str) -> Result<Vec<Token>, String> {
    let chars: Vec<char> = source.chars().collect();
    let mut list = Vec::new();
    let mut at = 0;
    while at < chars.len() {
        let c = chars[at];
        if c.is_whitespace() {
            at += 1;
        } else if c.is_ascii_digit() {
            let start = at;
            while at < chars.len()
                && (chars[at].is_ascii_alphanumeric()
                    || chars[at] == '.'
                    || (chars[at] == '-' && chars[at - 1] == 'e'))
            {
                at += 1;
            }
            let text: String = chars[start..at].iter().collect();
            list.push(Token::Number(text.parse().map_err(|_| format!("bad number {text}"))?));
        } else if c.is_alphabetic() || c == '_' || c == '$' {
            let start = at;
            while at < chars.len() && (chars[at].is_alphanumeric() || chars[at] == '_' || chars[at] == '$') {
                at += 1;
            }
            list.push(Token::Word(chars[start..at].iter().collect()));
        } else if c == '\'' || c == '"' {
            let mut text = String::new();
            at += 1;
            while at < chars.len() && chars[at] != c {
                if chars[at] == '\\' {
                    at += 1;
                    match chars[at] {
                        'n' => text.push('\n'),
                        't' => text.push('\t'),
                        'u' => {
                            let digits: String = chars[at + 1..at + 5].iter().collect();
                            let code = u32::from_str_radix(&digits, 16).map_err(|_| "bad escape".to_owned())?;
                            text.push(char::from_u32(code).ok_or("bad escape")?);
                            at += 4;
                        }
                        other => text.push(other),
                    }
                } else {
                    text.push(chars[at]);
                }
                at += 1;
            }
            at += 1;
            list.push(Token::Text(text));
        } else {
            let rest: String = chars[at..chars.len().min(at + 3)].iter().collect();
            let mut best = "";
            for sign in SIGNS {
                if rest.starts_with(sign) && sign.len() > best.len() {
                    best = sign;
                }
            }
            if best.is_empty() {
                return Err(format!("unexpected {c}"));
            }
            at += best.len();
            list.push(Token::Sign(best.to_owned()));
        }
    }
    list.push(Token::End);
    Ok(list)
}

enum Expr {
    Number(f64),
    Text(Rc<str>),
    Name(usize),
    Word(V),
    This,
    Object(Vec<(String, Expr)>),
    Function(Rc<Function>),
    Member(Box<Expr>, String),
    Index(Box<Expr>, Box<Expr>),
    Call(Box<Expr>, Vec<Expr>),
    New(Box<Expr>, Vec<Expr>),
    Typeof(Box<Expr>),
    Negate(Box<Expr>),
    Not(Box<Expr>),
    Binary(Op, Box<Expr>, Box<Expr>),
    And(Box<Expr>, Box<Expr>),
    Or(Box<Expr>, Box<Expr>),
    Choose(Box<Expr>, Box<Expr>, Box<Expr>),
    Assign(Box<Expr>, Option<Op>, Box<Expr>),
}

#[derive(Clone, Copy, PartialEq)]
enum Op {
    Plus,
    Minus,
    Times,
    Over,
    Less,
    Greater,
    AtMost,
    AtLeast,
    Same,
    Different,
    Instance,
}

enum Stmt {
    Declare(bool, usize, Option<Expr>),
    Expr(Expr),
    If(Expr, Box<Stmt>, Option<Box<Stmt>>),
    For(Box<Stmt>, Expr, Expr, Box<Stmt>),
    Block(Vec<Stmt>, bool),
    Many(Vec<Stmt>),
    Return(Option<Expr>),
    Throw(Expr),
    Try(Box<Stmt>, usize, Box<Stmt>),
    Function(usize, Rc<Function>),
    Nothing,
}

struct Function {
    name: String,
    params: Vec<usize>,
    body: Vec<Stmt>,
}

struct Parser<'a> {
    tokens: Vec<Token>,
    at: usize,
    names: &'a mut Vec<String>,
}

impl Parser<'_> {
    fn name(&mut self, text: &str) -> usize {
        match self.names.iter().position(|name| name == text) {
            Some(index) => index,
            None => {
                self.names.push(text.to_owned());
                self.names.len() - 1
            }
        }
    }

    fn is(&self, sign: &str) -> bool {
        matches!(&self.tokens[self.at], Token::Sign(found) if found == sign)
    }

    fn is_word(&self, word: &str) -> bool {
        matches!(&self.tokens[self.at], Token::Word(found) if found == word)
    }

    fn take(&mut self, sign: &str) -> bool {
        let found = self.is(sign);
        if found {
            self.at += 1;
        }
        found
    }

    fn take_word(&mut self, word: &str) -> bool {
        let found = self.is_word(word);
        if found {
            self.at += 1;
        }
        found
    }

    fn expect(&mut self, sign: &str) -> Result<(), String> {
        if self.take(sign) {
            Ok(())
        } else {
            Err(format!("expected {sign} and found {:?}", self.tokens[self.at]))
        }
    }

    fn word(&mut self) -> Result<String, String> {
        match self.tokens[self.at].clone() {
            Token::Word(word) => {
                self.at += 1;
                Ok(word)
            }
            other => Err(format!("expected a name and found {other:?}")),
        }
    }

    fn program(&mut self) -> Result<Vec<Stmt>, String> {
        let mut list = Vec::new();
        while self.tokens[self.at] != Token::End {
            list.push(self.statement()?);
        }
        Ok(list)
    }

    fn block(&mut self) -> Result<Vec<Stmt>, String> {
        self.expect("{")?;
        let mut list = Vec::new();
        while !self.take("}") {
            list.push(self.statement()?);
        }
        Ok(list)
    }

    fn scoped(&mut self) -> Result<Stmt, String> {
        let list = self.block()?;
        let declares = list
            .iter()
            .any(|stmt| matches!(stmt, Stmt::Declare(..) | Stmt::Many(_) | Stmt::Function(..)));
        Ok(Stmt::Block(list, declares))
    }

    fn declaration(&mut self) -> Result<Stmt, String> {
        let constant = self.is_word("const");
        self.at += 1;
        let mut list = Vec::new();
        loop {
            let word = self.word()?;
            let name = self.name(&word);
            let value = if self.take("=") { Some(self.assignment()?) } else { None };
            list.push(Stmt::Declare(constant, name, value));
            if !self.take(",") {
                break;
            }
        }
        self.take(";");
        if list.len() == 1 {
            Ok(list.remove(0))
        } else {
            Ok(Stmt::Many(list))
        }
    }

    fn statement(&mut self) -> Result<Stmt, String> {
        if self.take(";") {
            return Ok(Stmt::Nothing);
        }
        if self.is("{") {
            return self.scoped();
        }
        if self.is_word("var") || self.is_word("let") || self.is_word("const") {
            return self.declaration();
        }
        if self.is_word("function") {
            let made = self.function()?;
            let name = self.name(&made.name.clone());
            return Ok(Stmt::Function(name, made));
        }
        if self.take_word("if") {
            self.expect("(")?;
            let test = self.assignment()?;
            self.expect(")")?;
            let yes = self.statement()?;
            let no = if self.take_word("else") { Some(Box::new(self.statement()?)) } else { None };
            return Ok(Stmt::If(test, Box::new(yes), no));
        }
        if self.take_word("for") {
            self.expect("(")?;
            let start = self.declaration()?;
            let test = self.assignment()?;
            self.expect(";")?;
            let step = self.assignment()?;
            self.expect(")")?;
            let body = self.statement()?;
            return Ok(Stmt::For(Box::new(start), test, step, Box::new(body)));
        }
        if self.take_word("return") {
            let value = if self.is(";") || self.is("}") { None } else { Some(self.assignment()?) };
            self.take(";");
            return Ok(Stmt::Return(value));
        }
        if self.take_word("throw") {
            let value = self.assignment()?;
            self.take(";");
            return Ok(Stmt::Throw(value));
        }
        if self.take_word("try") {
            let body = self.scoped()?;
            if !self.take_word("catch") {
                return Err("expected catch".to_owned());
            }
            self.expect("(")?;
            let word = self.word()?;
            let name = self.name(&word);
            self.expect(")")?;
            let handler = self.scoped()?;
            return Ok(Stmt::Try(Box::new(body), name, Box::new(handler)));
        }
        let value = self.assignment()?;
        self.take(";");
        Ok(Stmt::Expr(value))
    }

    fn function(&mut self) -> Result<Rc<Function>, String> {
        self.at += 1;
        let name = if self.is("(") { String::new() } else { self.word()? };
        self.expect("(")?;
        let mut params = Vec::new();
        while !self.take(")") {
            let word = self.word()?;
            params.push(self.name(&word));
            self.take(",");
        }
        let body = self.block()?;
        Ok(Rc::new(Function { name, params, body }))
    }

    fn assignment(&mut self) -> Result<Expr, String> {
        let target = self.conditional()?;
        if self.take("=") {
            let value = self.assignment()?;
            return Ok(Expr::Assign(Box::new(target), None, Box::new(value)));
        }
        if self.take("+=") {
            let value = self.assignment()?;
            return Ok(Expr::Assign(Box::new(target), Some(Op::Plus), Box::new(value)));
        }
        Ok(target)
    }

    fn conditional(&mut self) -> Result<Expr, String> {
        let test = self.either()?;
        if self.take("?") {
            let yes = self.assignment()?;
            self.expect(":")?;
            let no = self.assignment()?;
            return Ok(Expr::Choose(Box::new(test), Box::new(yes), Box::new(no)));
        }
        Ok(test)
    }

    fn either(&mut self) -> Result<Expr, String> {
        let mut left = self.both()?;
        while self.take("||") {
            left = Expr::Or(Box::new(left), Box::new(self.both()?));
        }
        Ok(left)
    }

    fn both(&mut self) -> Result<Expr, String> {
        let mut left = self.binary(0)?;
        while self.take("&&") {
            left = Expr::And(Box::new(left), Box::new(self.binary(0)?));
        }
        Ok(left)
    }

    fn operator(&self, level: usize) -> Option<Op> {
        match &self.tokens[self.at] {
            Token::Sign(sign) => match (level, sign.as_str()) {
                (0, "===") => Some(Op::Same),
                (0, "!==") => Some(Op::Different),
                (1, "<") => Some(Op::Less),
                (1, ">") => Some(Op::Greater),
                (1, "<=") => Some(Op::AtMost),
                (1, ">=") => Some(Op::AtLeast),
                (2, "+") => Some(Op::Plus),
                (2, "-") => Some(Op::Minus),
                (3, "*") => Some(Op::Times),
                (3, "/") => Some(Op::Over),
                _ => None,
            },
            Token::Word(word) if level == 1 && word == "instanceof" => Some(Op::Instance),
            _ => None,
        }
    }

    fn binary(&mut self, level: usize) -> Result<Expr, String> {
        if level == 4 {
            return self.unary();
        }
        let mut left = self.binary(level + 1)?;
        while let Some(op) = self.operator(level) {
            self.at += 1;
            left = Expr::Binary(op, Box::new(left), Box::new(self.binary(level + 1)?));
        }
        Ok(left)
    }

    fn unary(&mut self) -> Result<Expr, String> {
        if self.take("-") {
            return Ok(Expr::Negate(Box::new(self.unary()?)));
        }
        if self.take("!") {
            return Ok(Expr::Not(Box::new(self.unary()?)));
        }
        if self.take_word("typeof") {
            return Ok(Expr::Typeof(Box::new(self.unary()?)));
        }
        let value = self.chain(true)?;
        if self.take("++") {
            return Ok(Expr::Assign(Box::new(value), Some(Op::Plus), Box::new(Expr::Number(1.0))));
        }
        Ok(value)
    }

    fn chain(&mut self, calls: bool) -> Result<Expr, String> {
        let mut value = self.primary()?;
        loop {
            if self.take(".") {
                value = Expr::Member(Box::new(value), self.word()?);
            } else if self.take("[") {
                let key = self.assignment()?;
                self.expect("]")?;
                value = Expr::Index(Box::new(value), Box::new(key));
            } else if calls && self.is("(") {
                value = Expr::Call(Box::new(value), self.arguments()?);
            } else {
                return Ok(value);
            }
        }
    }

    fn arguments(&mut self) -> Result<Vec<Expr>, String> {
        self.expect("(")?;
        let mut list = Vec::new();
        while !self.take(")") {
            list.push(self.assignment()?);
            if !self.is(")") {
                self.expect(",")?;
            }
        }
        Ok(list)
    }

    fn primary(&mut self) -> Result<Expr, String> {
        if self.take("(") {
            let value = self.assignment()?;
            self.expect(")")?;
            return Ok(value);
        }
        if self.take("{") {
            let mut list = Vec::new();
            while !self.take("}") {
                let key = match self.tokens[self.at].clone() {
                    Token::Word(word) => word,
                    Token::Text(text) => text,
                    other => return Err(format!("unexpected {other:?}")),
                };
                self.at += 1;
                self.expect(":")?;
                list.push((key, self.assignment()?));
                if !self.is("}") {
                    self.expect(",")?;
                }
            }
            return Ok(Expr::Object(list));
        }
        let token = self.tokens[self.at].clone();
        match token {
            Token::Number(number) => {
                self.at += 1;
                Ok(Expr::Number(number))
            }
            Token::Text(text) => {
                self.at += 1;
                Ok(Expr::Text(text.into()))
            }
            Token::Word(word) => match word.as_str() {
                "function" => Ok(Expr::Function(self.function()?)),
                "new" => {
                    self.at += 1;
                    let made = self.chain(false)?;
                    let args = if self.is("(") { self.arguments()? } else { Vec::new() };
                    Ok(Expr::New(Box::new(made), args))
                }
                "null" => {
                    self.at += 1;
                    Ok(Expr::Word(V::Null))
                }
                "true" | "false" => {
                    self.at += 1;
                    Ok(Expr::Word(V::Bool(word == "true")))
                }
                "this" => {
                    self.at += 1;
                    Ok(Expr::This)
                }
                _ => {
                    self.at += 1;
                    Ok(Expr::Name(self.name(&word)))
                }
            },
            other => Err(format!("unexpected {other:?}")),
        }
    }
}

// The evaluator.

#[derive(Clone, PartialEq, Debug)]
enum V {
    Undefined,
    Null,
    Bool(bool),
    Number(f64),
    Text(Rc<str>),
    Object(usize),
}

struct Scope {
    variables: RefCell<Vec<(usize, V, bool)>>,
    parent: Option<Rc<Scope>>,
    this: V,
}

impl Scope {
    fn inside(parent: &Rc<Scope>, this: V) -> Rc<Scope> {
        Rc::new(Scope { variables: RefCell::new(Vec::new()), parent: Some(parent.clone()), this })
    }

    fn declare(&self, name: usize, value: V, constant: bool) {
        let mut variables = self.variables.borrow_mut();
        match variables.iter_mut().find(|entry| entry.0 == name) {
            Some(entry) => entry.1 = value,
            None => variables.push((name, value, constant)),
        }
    }

    fn get(&self, name: usize) -> Option<V> {
        let mut scope = self;
        loop {
            for entry in scope.variables.borrow().iter() {
                if entry.0 == name {
                    return Some(entry.1.clone());
                }
            }
            match &scope.parent {
                Some(parent) => scope = parent,
                None => return None,
            }
        }
    }

    /// Whether there was such a variable, and whether it let itself be written.
    fn set(&self, name: usize, value: V) -> Option<bool> {
        let mut scope = self;
        loop {
            for entry in scope.variables.borrow_mut().iter_mut() {
                if entry.0 == name {
                    if entry.2 {
                        return Some(false);
                    }
                    entry.1 = value;
                    return Some(true);
                }
            }
            match &scope.parent {
                Some(parent) => scope = parent,
                None => return None,
            }
        }
    }
}

enum Stop {
    Return(V),
    Throw(V),
    Engine(RuntimeError),
}

/// How a program that did not finish ended.
#[derive(Debug)]
enum Failure {
    Syntax(String),
    Runtime(RuntimeError),
}

impl Failure {
    fn text(&self) -> String {
        match self {
            Failure::Syntax(text) => text.clone(),
            Failure::Runtime(error) => error.to_string(),
        }
    }
}

fn type_error(message: &str) -> Stop {
    Stop::Engine(RuntimeError::Type(message.to_owned()))
}

/// A number as the text JavaScript converts it to.
fn number_text(number: f64) -> String {
    if number.is_nan() {
        return "NaN".to_owned();
    }
    if number == 0.0 {
        return "0".to_owned();
    }
    let sign = if number < 0.0 { "-" } else { "" };
    if number.is_infinite() {
        return format!("{sign}Infinity");
    }
    let scientific = format!("{:e}", number.abs());
    let (mantissa, exponent) = scientific.split_once('e').expect("an exponent");
    let digits: String = mantissa.chars().filter(char::is_ascii_digit).collect();
    let point: i32 = exponent.parse::<i32>().expect("a number") + 1;
    let count = digits.len() as i32;
    let text = if count <= point && point <= 21 {
        format!("{digits}{}", "0".repeat((point - count) as usize))
    } else if 0 < point && point <= 21 {
        format!("{}.{}", &digits[..point as usize], &digits[point as usize..])
    } else if -6 < point && point <= 0 {
        format!("0.{}{digits}", "0".repeat((-point) as usize))
    } else {
        let power = point - 1;
        let direction = if power < 0 { "-" } else { "+" };
        if count == 1 {
            format!("{digits}e{direction}{}", power.abs())
        } else {
            format!("{}.{}e{direction}{}", &digits[..1], &digits[1..], power.abs())
        }
    };
    format!("{sign}{text}")
}

fn is_identifier(text: &str) -> bool {
    !text.is_empty()
        && !text.starts_with(|c: char| c.is_ascii_digit())
        && text.chars().all(|c| c.is_alphanumeric() || c == '_' || c == '$')
}

fn now_in_milliseconds() -> f64 {
    SystemTime::now()
        .duration_since(UNIX_EPOCH)
        .expect("the system clock should be after 1970")
        .as_secs_f64()
        * 1000.0
}

struct Engine {
    realm: Realm,
    names: Vec<String>,
    functions: HashMap<usize, (Rc<Function>, Rc<Scope>)>,
    top: Rc<Scope>,
    strict: bool,
    started: Instant,
}

impl Engine {
    fn new(realm: Realm) -> Engine {
        let top = Rc::new(Scope {
            variables: RefCell::new(Vec::new()),
            parent: None,
            this: V::Undefined,
        });
        Engine {
            realm,
            names: Vec::new(),
            functions: HashMap::new(),
            top,
            strict: false,
            started: Instant::now(),
        }
    }

    fn run(&mut self, source: &str) -> Result<(), Failure> {
        let tokens = tokens(source).map_err(Failure::Syntax)?;
        self.strict = tokens[0] == Token::Text("use strict".to_owned());
        let program = Parser { tokens, at: 0, names: &mut self.names }
            .program()
            .map_err(Failure::Syntax)?;
        let top = self.top.clone();
        match self.statements(&program, &top) {
            Ok(()) => Ok(()),
            Err(Stop::Engine(error)) => Err(Failure::Runtime(error)),
            Err(Stop::Throw(value) | Stop::Return(value)) => {
                let held = self.lower(&value);
                let text = match to_text(&self.realm, held) {
                    Ok(text) => text,
                    Err(_) => self.realm.display(held),
                };
                Err(Failure::Runtime(RuntimeError::Thrown(text)))
            }
        }
    }

    /// Everything the program printed, on either stream.
    fn text(&self) -> String {
        let mut text = String::new();
        for (_, line) in self.realm.output() {
            text.push_str(line);
        }
        text
    }

    fn lower(&mut self, value: &V) -> Value {
        match value {
            V::Undefined => Value::Undefined,
            V::Null => Value::Null,
            V::Bool(b) => Value::Bool(*b),
            V::Number(number) => self.realm.new_number(number.to_bits(), &number_text(*number)),
            V::Text(text) => self.realm.new_string(text),
            V::Object(object) => Value::Object(*object),
        }
    }

    fn raise(&self, value: Value) -> V {
        match value {
            Value::Undefined => V::Undefined,
            Value::Null => V::Null,
            Value::Bool(b) => V::Bool(b),
            Value::Number { bits, .. } => V::Number(f64::from_bits(bits)),
            Value::Text(_) => V::Text(self.realm.as_text(value).expect("a string").into()),
            Value::Object(object) => V::Object(object),
            Value::Pair(_) => panic!("an accessor pair is not a value"),
        }
    }

    fn convert(&mut self, value: &V) -> Result<String, Stop> {
        match value {
            V::Number(number) => Ok(number_text(*number)),
            V::Text(text) => Ok(text.to_string()),
            _ => {
                let held = self.lower(value);
                to_text(&self.realm, held).map_err(Stop::Engine)
            }
        }
    }

    fn truthy(&self, value: &V) -> bool {
        match value {
            V::Undefined | V::Null => false,
            V::Bool(b) => *b,
            V::Number(number) => *number != 0.0 && !number.is_nan(),
            V::Text(text) => !text.is_empty(),
            V::Object(_) => true,
        }
    }

    // Printing.

    fn is_error(&self, object: usize) -> bool {
        let mut above = self.realm.prototype_of(Value::Object(object));
        while let Some(Value::Object(found)) = above {
            if self.realm.error_prototype(ErrorKind::Error) == Some(Value::Object(found)) {
                return true;
            }
            above = self.realm.prototype_of(Value::Object(found));
        }
        false
    }

    fn inspect_value(&self, value: Value, indent: usize, open: &mut Vec<usize>) -> String {
        match value {
            Value::Text(_) => format!("'{}'", self.realm.as_text(value).expect("a string")),
            Value::Object(object) => self.inspect(object, indent, open),
            Value::Pair(_) => match self.realm.accessor_halves(value) {
                (Some(_), Some(_)) => "[Getter/Setter]".to_owned(),
                (None, Some(_)) => "[Setter]".to_owned(),
                _ => "[Getter]".to_owned(),
            },
            _ => self.realm.display(value),
        }
    }

    fn inspect(&self, object: usize, indent: usize, open: &mut Vec<usize>) -> String {
        if open.contains(&object) {
            return "[Circular *1]".to_owned();
        }
        if open.len() > 2 {
            return "[Object]".to_owned();
        }
        open.push(object);
        let data = self.realm.object(object);
        let is_error = self.is_error(object);
        let mut prefix = String::new();
        if let Some(function) = &data.function {
            prefix = if function.name.is_empty() {
                "[Function (anonymous)]".to_owned()
            } else {
                format!("[Function: {}]", function.name)
            };
        } else if is_error {
            let said = describe_error(&self.realm, Value::Object(object));
            prefix = format!("[{}]", said.unwrap_or("Error".to_owned()));
        } else if data.prototype.is_none() && object != 0 {
            prefix = "[Object: null prototype]".to_owned();
        }
        let mut entries = Vec::new();
        for property in &data.properties {
            let said = is_error && (property.key == "name" || property.key == "message");
            if said {
                continue;
            }
            let value = self.inspect_value(property.value, indent + 2, open);
            if property.attributes.enumerable {
                if is_identifier(&property.key) {
                    entries.push(format!("{}: {value}", property.key));
                } else {
                    entries.push(format!("'{}': {value}", property.key));
                }
            } else if is_error && property.key == "cause" {
                entries.push(format!("[cause]: {value}"));
            }
        }
        open.pop();
        let braces = data.function.is_none() && !is_error;
        if entries.is_empty() {
            return match (prefix.is_empty(), braces) {
                (true, _) => "{}".to_owned(),
                (false, true) => format!("{prefix} {{}}"),
                (false, false) => prefix,
            };
        }
        if !prefix.is_empty() {
            prefix.push(' ');
        }
        let start = entries.len() + indent + 1 + prefix.len() + 10;
        let total: usize = entries.iter().map(String::len).sum::<usize>() + entries.len();
        if total + start <= 80 && !entries.iter().any(|entry| entry.contains('\n')) {
            return format!("{prefix}{{ {} }}", entries.join(", "));
        }
        let pad = " ".repeat(indent);
        format!("{prefix}{{\n{pad}  {}\n{pad}}}", entries.join(&format!(",\n{pad}  ")))
    }

    // Objects and functions.

    fn closure(&mut self, made: &Rc<Function>, scope: &Rc<Scope>) -> V {
        let function = self.realm.closure(&made.name);
        let top = self.realm.object_prototype();
        let prototype = self.realm.new_object_with_prototype(top).expect("an object");
        self.realm.define_property(prototype, "constructor", function, Attributes::new(true, false, true));
        self.realm.define_property(function, "prototype", prototype, Attributes::new(true, false, false));
        match function {
            Value::Object(object) => {
                self.functions.insert(object, (made.clone(), scope.clone()));
                V::Object(object)
            }
            _ => unreachable!("a function is an object"),
        }
    }

    fn find(&self, object: usize, key: &str) -> Option<(usize, Value, Attributes)> {
        let mut holder = object;
        loop {
            if let Some((value, attributes)) = self.realm.own_descriptor(Value::Object(holder), key) {
                return Some((holder, value, attributes));
            }
            match self.realm.prototype_of(Value::Object(holder)) {
                Some(Value::Object(above)) => holder = above,
                _ => return None,
            }
        }
    }

    fn read(&mut self, target: &V, key: &str) -> Result<V, Stop> {
        let V::Object(object) = target else {
            return Ok(V::Undefined);
        };
        match self.find(*object, key) {
            None => Ok(V::Undefined),
            Some((_, value, attributes)) if attributes.accessor => {
                match self.realm.accessor_halves(value).0 {
                    Some(getter) => {
                        let getter = self.raise(getter);
                        self.call(&getter, Some(target.clone()), Vec::new())
                    }
                    None => Ok(V::Undefined),
                }
            }
            Some((_, value, _)) => Ok(self.raise(value)),
        }
    }

    fn refuse(&self, message: &str) -> Result<(), Stop> {
        if self.strict {
            Err(type_error(message))
        } else {
            Ok(())
        }
    }

    fn write(&mut self, target: &V, key: &str, value: V) -> Result<(), Stop> {
        let V::Object(object) = target else {
            return Ok(());
        };
        match self.find(*object, key) {
            Some((_, pair, attributes)) if attributes.accessor => {
                match self.realm.accessor_halves(pair).1 {
                    Some(setter) => {
                        let setter = self.raise(setter);
                        self.call(&setter, Some(target.clone()), vec![value])?;
                        Ok(())
                    }
                    None => self.refuse(&format!("Cannot set property {key} of #<Object> which has only a getter")),
                }
            }
            Some((_, _, attributes)) if !attributes.writable => {
                let name = if self.realm.prototype_of(Value::Object(*object)) == Some(Value::Null) {
                    "[object Object]"
                } else {
                    "#<Object>"
                };
                self.refuse(&format!("Cannot assign to read only property '{key}' of object '{name}'"))
            }
            Some((holder, _, attributes)) if holder == *object => {
                let held = self.lower(&value);
                self.realm.define_property(Value::Object(*object), key, held, attributes);
                Ok(())
            }
            _ => {
                let held = self.lower(&value);
                self.realm.define_property(Value::Object(*object), key, held, Attributes::new(true, true, true));
                Ok(())
            }
        }
    }

    fn native(&mut self, native: Native, receiver: Option<V>, args: &[V]) -> Result<V, Stop> {
        for object in 0..self.realm.object_count() {
            let text = self.inspect(object, 0, &mut Vec::new());
            self.realm.set_inspected(object, &text);
        }
        if native == Native::PerformanceNow {
            let elapsed = self.started.elapsed().as_secs_f64() * 1000.0;
            let reading = self.realm.new_number(elapsed.to_bits(), &number_text(elapsed));
            self.realm.set_clock(reading);
        }
        let receiver = receiver.map(|value| self.lower(&value));
        let args: Vec<Value> = args.iter().map(|value| self.lower(value)).collect();
        let answer = call_native(&mut self.realm, native, receiver, &args).map_err(Stop::Engine)?;
        Ok(self.raise(answer))
    }

    fn call(&mut self, callee: &V, receiver: Option<V>, args: Vec<V>) -> Result<V, Stop> {
        let V::Object(object) = callee else {
            return Err(type_error("value is not a function"));
        };
        if let Some(native) = self.realm.native_of(Value::Object(*object)) {
            return self.native(native, receiver, &args);
        }
        let Some((made, scope)) = self.functions.get(object).cloned() else {
            return Err(type_error("value is not a function"));
        };
        let inner = Scope::inside(&scope, receiver.unwrap_or(V::Undefined));
        for (position, name) in made.params.iter().enumerate() {
            inner.declare(*name, args.get(position).cloned().unwrap_or(V::Undefined), false);
        }
        match self.statements(&made.body, &inner) {
            Ok(()) => Ok(V::Undefined),
            Err(Stop::Return(value)) => Ok(value),
            Err(other) => Err(other),
        }
    }

    fn construct(&mut self, callee: &V, args: Vec<V>) -> Result<V, Stop> {
        let prototype = match self.read(callee, "prototype")? {
            V::Object(object) => Value::Object(object),
            _ => self.realm.object_prototype(),
        };
        let made = self.realm.new_object_with_prototype(prototype).map_err(Stop::Engine)?;
        let made = self.raise(made);
        let native = match callee {
            V::Object(object) => self.realm.native_of(Value::Object(*object)).is_some(),
            _ => false,
        };
        self.realm.set_called_with_new(native);
        let answer = self.call(callee, Some(made.clone()), args);
        self.realm.set_called_with_new(false);
        match answer? {
            V::Object(object) => Ok(V::Object(object)),
            _ => Ok(made),
        }
    }

    /// The object an engine error is caught as.
    fn caught(&mut self, kind: ErrorKind, message: &str) -> V {
        let prototype = self.realm.error_prototype(kind);
        let above = prototype.unwrap_or(self.realm.object_prototype());
        let made = self.realm.new_object_with_prototype(above).expect("an object");
        let text = self.realm.new_string(message);
        self.realm.define_property(made, "message", text, Attributes::new(true, false, true));
        if prototype.is_none() {
            let name = self.realm.new_string(kind.name());
            self.realm.define_property(made, "name", name, Attributes::new(true, false, true));
        }
        self.raise(made)
    }

    /// The name an object is given in a message, when finding it runs nothing.
    fn named(&self, object: usize) -> Option<String> {
        let (_, method, attributes) = self.find(object, "toString")?;
        if attributes.accessor || self.realm.native_of(method) != Some(Native::ObjectToString) {
            return None;
        }
        let (_, made_by, attributes) = self.find(object, "constructor")?;
        if attributes.accessor {
            return None;
        }
        self.realm.function_name(made_by).map(|name| format!("#<{name}>"))
    }

    fn cannot_read(&mut self, target: &V, key: &V) -> Stop {
        let word = if *target == V::Null { "null" } else { "undefined" };
        let name = match key {
            V::Object(object) => self.named(*object),
            _ => self.convert(key).ok(),
        };
        match name {
            Some(name) => type_error(&format!("Cannot read properties of {word} (reading '{name}')")),
            None => type_error(&format!("Cannot read properties of {word}")),
        }
    }

    // Statements and expressions.

    fn statements(&mut self, list: &[Stmt], scope: &Rc<Scope>) -> Result<(), Stop> {
        for stmt in list {
            if let Stmt::Function(name, made) = stmt {
                let function = self.closure(made, scope);
                scope.declare(*name, function, false);
            }
        }
        for stmt in list {
            self.statement(stmt, scope)?;
        }
        Ok(())
    }

    fn statement(&mut self, stmt: &Stmt, scope: &Rc<Scope>) -> Result<(), Stop> {
        match stmt {
            Stmt::Nothing | Stmt::Function(..) => Ok(()),
            Stmt::Declare(constant, name, value) => {
                let value = match value {
                    Some(value) => self.value(value, scope)?,
                    None => V::Undefined,
                };
                scope.declare(*name, value, *constant);
                Ok(())
            }
            Stmt::Expr(value) => self.value(value, scope).map(|_| ()),
            Stmt::If(test, yes, no) => {
                let test = self.value(test, scope)?;
                if self.truthy(&test) {
                    self.statement(yes, scope)
                } else if let Some(no) = no {
                    self.statement(no, scope)
                } else {
                    Ok(())
                }
            }
            Stmt::For(start, test, step, body) => {
                self.statement(start, scope)?;
                loop {
                    let again = self.value(test, scope)?;
                    if !self.truthy(&again) {
                        return Ok(());
                    }
                    self.statement(body, scope)?;
                    self.value(step, scope)?;
                }
            }
            Stmt::Block(list, declares) => {
                if *declares {
                    let inner = Scope::inside(scope, scope.this.clone());
                    self.statements(list, &inner)
                } else {
                    self.statements(list, scope)
                }
            }
            Stmt::Many(list) => self.statements(list, scope),
            Stmt::Return(value) => match value {
                Some(value) => Err(Stop::Return(self.value(value, scope)?)),
                None => Err(Stop::Return(V::Undefined)),
            },
            Stmt::Throw(value) => Err(Stop::Throw(self.value(value, scope)?)),
            Stmt::Try(body, name, handler) => {
                let value = match self.statement(body, scope) {
                    Err(Stop::Throw(value)) => value,
                    Err(Stop::Engine(RuntimeError::Type(message))) => self.caught(ErrorKind::Type, &message),
                    Err(Stop::Engine(RuntimeError::Range(message))) => self.caught(ErrorKind::Range, &message),
                    Err(Stop::Engine(RuntimeError::Reference(message))) => {
                        self.caught(ErrorKind::Reference, &message)
                    }
                    other => return other,
                };
                let inner = Scope::inside(scope, scope.this.clone());
                inner.declare(*name, value, false);
                self.statement(handler, &inner)
            }
        }
    }

    fn variable(&self, name: usize, scope: &Rc<Scope>) -> Option<V> {
        match scope.get(name) {
            Some(value) => Some(value),
            None => self.realm.global(&self.names[name]).map(|value| self.raise(value)),
        }
    }

    fn arguments(&mut self, args: &[Expr], scope: &Rc<Scope>) -> Result<Vec<V>, Stop> {
        let mut list = Vec::new();
        for arg in args {
            list.push(self.value(arg, scope)?);
        }
        Ok(list)
    }

    /// The object of a member expression and the key that names the member.
    fn place(&mut self, target: &Expr, scope: &Rc<Scope>) -> Result<(V, String), Stop> {
        let (object, key) = match target {
            Expr::Member(object, key) => (self.value(object, scope)?, V::Text(key.as_str().into())),
            Expr::Index(object, key) => (self.value(object, scope)?, self.value(key, scope)?),
            _ => unreachable!("not a member expression"),
        };
        if object == V::Undefined || object == V::Null {
            return Err(self.cannot_read(&object, &key));
        }
        Ok((object, self.convert(&key)?))
    }

    fn value(&mut self, expr: &Expr, scope: &Rc<Scope>) -> Result<V, Stop> {
        match expr {
            Expr::Number(number) => Ok(V::Number(*number)),
            Expr::Text(text) => Ok(V::Text(text.clone())),
            Expr::Word(value) => Ok(value.clone()),
            Expr::This => Ok(scope.this.clone()),
            Expr::Name(name) => match self.variable(*name, scope) {
                Some(value) => Ok(value),
                None => Err(Stop::Engine(RuntimeError::Reference(format!(
                    "{} is not defined",
                    self.names[*name]
                )))),
            },
            Expr::Object(list) => {
                let top = self.realm.object_prototype();
                let made = self.realm.new_object_with_prototype(top).expect("an object");
                for (key, value) in list {
                    let value = self.value(value, scope)?;
                    let held = self.lower(&value);
                    self.realm.define_property(made, key, held, Attributes::new(true, true, true));
                }
                Ok(self.raise(made))
            }
            Expr::Function(made) => Ok(self.closure(made, scope)),
            Expr::Member(..) | Expr::Index(..) => {
                let (object, key) = self.place(expr, scope)?;
                self.read(&object, &key)
            }
            Expr::Call(callee, args) => {
                if let Expr::Member(..) | Expr::Index(..) = **callee {
                    let (object, key) = self.place(callee, scope)?;
                    let method = self.read(&object, &key)?;
                    let args = self.arguments(args, scope)?;
                    self.call(&method, Some(object), args)
                } else {
                    let function = self.value(callee, scope)?;
                    let args = self.arguments(args, scope)?;
                    self.call(&function, None, args)
                }
            }
            Expr::New(callee, args) => {
                let callee = self.value(callee, scope)?;
                let args = self.arguments(args, scope)?;
                self.construct(&callee, args)
            }
            Expr::Typeof(value) => {
                let value = match &**value {
                    Expr::Name(name) => self.variable(*name, scope).unwrap_or(V::Undefined),
                    other => self.value(other, scope)?,
                };
                let word = match value {
                    V::Undefined => "undefined",
                    V::Null => "object",
                    V::Bool(_) => "boolean",
                    V::Number(_) => "number",
                    V::Text(_) => "string",
                    V::Object(object) if self.realm.is_callable(Value::Object(object)) => "function",
                    V::Object(_) => "object",
                };
                Ok(V::Text(word.into()))
            }
            Expr::Negate(value) => match self.value(value, scope)? {
                V::Number(number) => Ok(V::Number(-number)),
                _ => Ok(V::Number(f64::NAN)),
            },
            Expr::Not(value) => {
                let value = self.value(value, scope)?;
                Ok(V::Bool(!self.truthy(&value)))
            }
            Expr::And(left, right) => {
                let left = self.value(left, scope)?;
                if self.truthy(&left) { self.value(right, scope) } else { Ok(left) }
            }
            Expr::Or(left, right) => {
                let left = self.value(left, scope)?;
                if self.truthy(&left) { Ok(left) } else { self.value(right, scope) }
            }
            Expr::Choose(test, yes, no) => {
                let test = self.value(test, scope)?;
                if self.truthy(&test) { self.value(yes, scope) } else { self.value(no, scope) }
            }
            Expr::Binary(op, left, right) => {
                let left = self.value(left, scope)?;
                let right = self.value(right, scope)?;
                self.binary(*op, left, right)
            }
            Expr::Assign(target, op, value) => {
                if let Expr::Name(name) = **target {
                    let mut value = self.value(value, scope)?;
                    if let Some(op) = op {
                        let before = self.value(target, scope)?;
                        value = self.binary(*op, before, value)?;
                    }
                    match scope.set(name, value.clone()) {
                        Some(true) => Ok(value),
                        Some(false) => Err(type_error("Assignment to constant variable.")),
                        None => {
                            self.top.declare(name, value.clone(), false);
                            Ok(value)
                        }
                    }
                } else {
                    let (object, key) = self.place(target, scope)?;
                    let mut value = self.value(value, scope)?;
                    if let Some(op) = op {
                        let before = self.read(&object, &key)?;
                        value = self.binary(*op, before, value)?;
                    }
                    self.write(&object, &key, value.clone())?;
                    Ok(value)
                }
            }
        }
    }

    fn binary(&mut self, op: Op, left: V, right: V) -> Result<V, Stop> {
        if let (V::Number(a), V::Number(b)) = (&left, &right) {
            return Ok(match op {
                Op::Plus => V::Number(a + b),
                Op::Minus => V::Number(a - b),
                Op::Times => V::Number(a * b),
                Op::Over => V::Number(a / b),
                Op::Less => V::Bool(a < b),
                Op::Greater => V::Bool(a > b),
                Op::AtMost => V::Bool(a <= b),
                Op::AtLeast => V::Bool(a >= b),
                Op::Same => V::Bool(a == b),
                Op::Different => V::Bool(a != b),
                Op::Instance => return Err(type_error("Right-hand side of 'instanceof' is not callable")),
            });
        }
        match op {
            Op::Same => Ok(V::Bool(left == right)),
            Op::Different => Ok(V::Bool(left != right)),
            Op::Plus => {
                let text = self.convert(&left)? + &self.convert(&right)?;
                Ok(V::Text(text.into()))
            }
            Op::Instance => {
                let V::Object(prototype) = self.read(&right, "prototype")? else {
                    return Err(type_error("Right-hand side of 'instanceof' is not callable"));
                };
                let V::Object(object) = left else {
                    return Ok(V::Bool(false));
                };
                let mut above = self.realm.prototype_of(Value::Object(object));
                while let Some(Value::Object(found)) = above {
                    if found == prototype {
                        return Ok(V::Bool(true));
                    }
                    above = self.realm.prototype_of(Value::Object(found));
                }
                Ok(V::Bool(false))
            }
            _ => Err(Stop::Engine(RuntimeError::NotImplemented("arithmetic on this value".to_owned()))),
        }
    }
}

/// The builtins a program can be given, in the order they are installed.
#[derive(Clone, Copy)]
enum Part {
    Globals,
    Object,
    Function,
    Error,
    Text,
    Performance,
    Json,
    Console,
}

fn engine(parts: &[Part]) -> Engine {
    let mut realm = Realm::new();
    for part in parts {
        match part {
            Part::Globals => globals::install(&mut realm),
            Part::Object => object::install(&mut realm),
            Part::Function => function::install(&mut realm),
            Part::Error => error::install(&mut realm),
            Part::Text => string::install(&mut realm),
            Part::Performance => {
                let origin = now_in_milliseconds();
                let origin = realm.new_number(origin.to_bits(), &number_text(origin));
                performance::install(&mut realm, origin);
            }
            Part::Json => json::install(&mut realm),
            Part::Console => console::install(&mut realm),
        }
    }
    Engine::new(realm)
}

/// Run a program with some builtins in it and hand back what it printed.
fn run(parts: &[Part], source: &str) -> Result<String, String> {
    let mut engine = engine(parts);
    engine.run(source).map_err(|failure| failure.text())?;
    Ok(engine.text())
}

// `Object` and the object model.

fn object_printed(source: &str) -> Result<String, String> {
    run(
        &[Part::Globals, Part::Object, Part::Text, Part::Json, Part::Console],
        source,
    )
}

/// What a program printed, with the trailing newline off, for a program that should not fail.
fn object_logged(source: &str) -> String {
    let text = object_printed(source).expect("the program should run");
    text.strip_suffix('\n').unwrap_or(&text).to_owned()
}

/// What a program failed with, for a program that should fail.
fn object_refused(source: &str) -> String {
    object_printed(source).expect_err("the program should fail")
}

#[test]
fn every_object_has_the_methods_on_object_prototype() {
    assert_eq!(
        object_logged(
            "var o = {a: 1}; console.log(o.toString(), o.valueOf() === o, typeof o.hasOwnProperty);"
        ),
        "[object Object] true function"
    );
}

#[test]
fn has_own_property_asks_about_the_object_and_not_about_its_chain() {
    assert_eq!(
        object_logged(
            "var p = {a: 1}; var o = Object.create(p);\n\
             console.log(o.a, o.hasOwnProperty('a'), p.hasOwnProperty('a'), o.hasOwnProperty('toString'));"
        ),
        "1 false true false"
    );
}

#[test]
fn has_own_property_converts_its_key_the_way_a_property_name_is_converted() {
    assert_eq!(
        object_logged(
            "console.log(({undefined: 1}).hasOwnProperty(undefined), ({}).hasOwnProperty());"
        ),
        "true false"
    );
}

#[test]
fn is_prototype_of_walks_the_whole_chain_and_leaves_the_object_itself_out() {
    assert_eq!(
        object_logged(
            "var top = {}; var middle = Object.create(top); var bottom = Object.create(middle);\n\
             console.log(top.isPrototypeOf(bottom), bottom.isPrototypeOf(top), top.isPrototypeOf(top));"
        ),
        "true false false"
    );
}

#[test]
fn is_prototype_of_answers_false_for_something_that_has_no_chain_rather_than_throwing() {
    assert_eq!(
        object_logged(
            "console.log(Object.prototype.isPrototypeOf(1), Object.prototype.isPrototypeOf(Object.create(null)));"
        ),
        "false false"
    );
}

#[test]
fn a_hidden_property_is_still_an_own_property() {
    // Where the two questions come apart. `hasOwnProperty` is about whether the property is
    // there and `propertyIsEnumerable` is about whether it shows, and a defined property is
    // there and does not show.
    assert_eq!(
        object_logged(
            "var o = {shown: 1}; Object.defineProperty(o, 'kept', {value: 2});\n\
             console.log(o.hasOwnProperty('kept'), o.propertyIsEnumerable('kept'), o.propertyIsEnumerable('shown'));"
        ),
        "true false true"
    );
}

#[test]
fn property_is_enumerable_says_false_for_a_name_that_is_not_there_at_all() {
    assert_eq!(
        object_logged(
            "console.log(({}).propertyIsEnumerable('nope'), ({}).propertyIsEnumerable('toString'));"
        ),
        "false false"
    );
}

#[test]
fn the_methods_on_object_prototype_are_hidden_from_everything_that_walks_an_object() {
    // The reason they could not be installed before attributes. An enumerable `toString` at the
    // top of every chain would appear in every object printed and everything serialised.
    assert_eq!(
        object_logged("var o = {a: 1}; console.log(o, JSON.stringify(o));"),
        "{ a: 1 } {\"a\":1}"
    );
}

#[test]
fn the_methods_on_object_prototype_carry_the_attributes_node_reports_for_them() {
    assert_eq!(
        object_logged(
            "var d = Object.getOwnPropertyDescriptor(Object.prototype, 'hasOwnProperty');\n\
             console.log(d.writable, d.enumerable, d.configurable);"
        ),
        "true false true"
    );
}

#[test]
fn an_object_with_no_prototype_has_none_of_them() {
    assert_eq!(
        object_logged(
            "var bare = Object.create(null); console.log(bare.toString, bare.hasOwnProperty);"
        ),
        "undefined undefined"
    );
}

#[test]
fn a_method_on_object_prototype_called_on_nothing_refuses_by_name() {
    // A plain call needs `globalThis` to know what it was called on, and there is not one. The
    // only way to make this call today is to read the method out and call it, which is what the
    // program below does.
    let error = object_refused("var f = ({}).hasOwnProperty; f('x');");
    assert!(error.contains("globalThis"), "{error}");
}

#[test]
fn an_object_literal_inherits_from_object_prototype() {
    assert_eq!(
        object_logged("console.log(Object.getPrototypeOf({}) === Object.prototype);"),
        "true"
    );
}

#[test]
fn object_prototype_is_the_top_and_inherits_from_nothing() {
    assert_eq!(
        object_logged("console.log(Object.getPrototypeOf(Object.prototype));"),
        "null"
    );
}

#[test]
fn a_property_that_is_not_on_an_object_is_looked_for_above_it() {
    assert_eq!(
        object_logged("var p = {x: 1}; var o = Object.create(p); console.log(o.x);"),
        "1"
    );
}

#[test]
fn an_own_property_hides_the_inherited_one_of_the_same_name() {
    assert_eq!(
        object_logged("var p = {x: 1}; var o = Object.create(p); o.x = 2; console.log(o.x, p.x);"),
        "2 1"
    );
}

#[test]
fn writing_makes_an_own_property_and_leaves_the_prototype_alone() {
    // There are no setters, so a write never goes up the chain. The prototype keeping its own
    // value is the whole observable difference between inheriting a property and sharing one.
    assert_eq!(
        object_logged(
            "var p = {x: 1}; var a = Object.create(p); var b = Object.create(p); a.x = 9; console.log(a.x, b.x, p.x);"
        ),
        "9 1 1"
    );
}

#[test]
fn a_lookup_walks_the_whole_chain_and_not_one_step_of_it() {
    assert_eq!(
        object_logged("var o = Object.create(Object.create({deep: 'found'})); console.log(o.deep);"),
        "found"
    );
}

#[test]
fn a_name_that_is_nowhere_on_the_chain_is_undefined_rather_than_an_error() {
    assert_eq!(
        object_logged("var o = Object.create({x: 1}); console.log(o.nope);"),
        "undefined"
    );
}

#[test]
fn an_object_created_with_null_inherits_from_nothing() {
    assert_eq!(
        object_logged("var o = Object.create(null); console.log(Object.getPrototypeOf(o), o.x);"),
        "null undefined"
    );
}

#[test]
fn an_object_with_no_prototype_says_so_when_it_is_printed() {
    assert_eq!(
        object_logged("console.log(Object.create(null));"),
        "[Object: null prototype] {}"
    );
    assert_eq!(
        object_logged("var o = Object.create(null); o.x = 1; console.log(o);"),
        "[Object: null prototype] { x: 1 }"
    );
}

#[test]
fn an_object_with_no_prototype_has_no_text_and_says_which_error_that_is() {
    // The chain is what converts an object to text, so an object with no chain cannot be
    // converted, and node's message says exactly that.
    let error = object_printed("String(Object.create(null));").expect_err("should throw");
    assert!(
        error.contains("Cannot convert object to primitive value"),
        "unexpected error: {error}"
    );
}

#[test]
fn a_chain_that_does_not_reach_object_prototype_has_no_text_either() {
    // Having a prototype is not enough. What matters is whether the walk arrives somewhere that
    // would have a `toString` on it, which is `Object.prototype` and nowhere else.
    let error = object_printed("'' + Object.create(Object.create(null));").expect_err("should throw");
    assert!(
        error.contains("Cannot convert object to primitive value"),
        "unexpected error: {error}"
    );
}

#[test]
fn an_ordinary_object_still_converts_to_the_text_it_always_did() {
    assert_eq!(
        object_logged("console.log(String({}), '' + {a: 1});"),
        "[object Object] [object Object]"
    );
}

#[test]
fn creating_from_something_that_is_not_an_object_names_the_value() {
    let error = object_printed("Object.create(1);").expect_err("should throw");
    assert!(
        error.contains("Object prototype may only be an Object or null: 1"),
        "unexpected error: {error}"
    );
}

#[test]
fn creating_from_nothing_at_all_is_the_same_refusal_as_creating_from_undefined() {
    let missing = object_printed("Object.create();").expect_err("should throw");
    let explicit = object_printed("Object.create(undefined);").expect_err("should throw");
    assert_eq!(missing, explicit);
    assert!(
        missing.contains("Object prototype may only be an Object or null: undefined"),
        "unexpected error: {missing}"
    );
}

#[test]
fn the_descriptors_argument_defines_properties_on_the_object_that_was_made() {
    assert_eq!(
        object_logged(
            "var o = Object.create(null, {x: {value: 1}}); console.log(o, o.x, Object.getPrototypeOf(o));"
        ),
        "[Object: null prototype] {} 1 null"
    );
}

#[test]
fn asking_undefined_or_null_for_a_prototype_throws_the_way_node_does() {
    for source in [
        "Object.getPrototypeOf(undefined);",
        "Object.getPrototypeOf(null);",
    ] {
        let error = object_printed(source).expect_err("should throw");
        assert!(
            error.contains("Cannot convert undefined or null to object"),
            "unexpected error for {source}: {error}"
        );
    }
}

#[test]
fn asking_a_primitive_for_a_prototype_refuses_by_name_rather_than_answering_null() {
    let error = object_printed("Object.getPrototypeOf(1);").expect_err("should throw");
    assert!(
        error.contains("it needs the wrapper prototypes"),
        "unexpected error: {error}"
    );
}

#[test]
fn every_function_in_the_realm_answers_with_one_function_prototype() {
    // Node says true to both of these, and the second is the one that says `Object` is a
    // function rather than a namespace object with the same names on it.
    assert_eq!(
        object_logged(
            "function f() {} function g() {}\n\
             console.log(Object.getPrototypeOf(f) === Object.getPrototypeOf(g));\n\
             console.log(Object.getPrototypeOf(Object) === Object.getPrototypeOf(f));"
        ),
        "true\ntrue"
    );
}

#[test]
fn a_defined_property_gets_nothing_it_was_not_asked_for() {
    // The asymmetry against assignment. `o.a = 1` makes a property that can do all three things
    // and this makes one that can do none of them.
    assert_eq!(
        object_logged(
            "var o = {}; Object.defineProperty(o, 'a', {value: 1}); console.log(Object.getOwnPropertyDescriptor(o, 'a'));"
        ),
        "{ value: 1, writable: false, enumerable: false, configurable: false }"
    );
}

#[test]
fn an_assigned_property_gets_all_three() {
    assert_eq!(
        object_logged("var o = {a: 1}; console.log(Object.getOwnPropertyDescriptor(o, 'a'));"),
        "{ value: 1, writable: true, enumerable: true, configurable: true }"
    );
}

#[test]
fn a_hidden_property_is_still_there_and_is_not_printed_or_serialised() {
    // The three places enumerability shows, all of which a method on a prototype has to be
    // invisible to before it can be installed.
    assert_eq!(
        object_logged(
            "var o = {x: 1}; Object.defineProperty(o, 'x', {enumerable: false}); console.log(o, JSON.stringify(o), o.x);"
        ),
        "{} {} 1"
    );
}

#[test]
fn defining_answers_with_the_object_so_it_can_be_used_in_place() {
    assert_eq!(
        object_logged("console.log(Object.defineProperty({}, 'z', {value: 5}).z);"),
        "5"
    );
}

#[test]
fn a_read_only_property_refuses_a_write_in_strict_mode_and_ignores_one_otherwise() {
    assert_eq!(
        object_logged(
            "var o = {}; Object.defineProperty(o, 'a', {value: 1}); o.a = 2; console.log(o.a);"
        ),
        "1"
    );
    let error = object_printed(
        "'use strict'; var o = {}; Object.defineProperty(o, 'a', {value: 1}); o.a = 2;",
    )
    .expect_err("should throw");
    assert!(
        error.contains("Cannot assign to read only property 'a' of object '#<Object>'"),
        "unexpected error: {error}"
    );
}

#[test]
fn a_computed_key_gets_the_same_refusal_a_dotted_one_does() {
    // From the point where there is a name there is nothing left that says how the program
    // spelled it, so `o['a']` has to say exactly what `o.a` says.
    assert_eq!(
        object_logged(
            "var o = {}; Object.defineProperty(o, 'a', {value: 1}); o['a'] = 2; console.log(o['a']);"
        ),
        "1"
    );
    let error = object_printed(
        "'use strict'; var o = {}; Object.defineProperty(o, 'a', {value: 1}); o['a'] = 2;",
    )
    .expect_err("should throw");
    assert!(
        error.contains("Cannot assign to read only property 'a' of object '#<Object>'"),
        "unexpected error: {error}"
    );
}

#[test]
fn a_computed_key_finds_what_the_prototype_chain_holds() {
    assert_eq!(
        object_logged(
            "var p = {a: 'above'}; var o = Object.create(p); console.log(o['a']); o['a'] = 'own'; console.log(o.a, p.a);"
        ),
        "above\nown above"
    );
}

#[test]
fn a_key_is_named_in_the_message_only_when_naming_it_runs_nothing() {
    for (source, message) in [
        (
            "var u; u[{}];",
            "Cannot read properties of undefined (reading '#<Object>')",
        ),
        (
            "function Weird() {} var u; u[new Weird()];",
            "Cannot read properties of undefined (reading '#<Weird>')",
        ),
        (
            "var u; u[Object.create({constructor: function Weird() {}})];",
            "Cannot read properties of undefined (reading '#<Weird>')",
        ),
        (
            "var u; u[Object.create(null)];",
            "Cannot read properties of undefined",
        ),
        (
            "var u; u[{toString: function () { throw new Error('should not run'); }}];",
            "Cannot read properties of undefined",
        ),
        (
            "var u; u[Object.create(Object.prototype, {constructor: {value: 1}})];",
            "Cannot read properties of undefined",
        ),
    ] {
        let error = object_printed(source).expect_err("should throw");
        assert!(error.contains(message), "{source} said {error}");
    }
}

#[test]
fn a_read_only_property_on_a_prototype_stops_a_write_to_everything_below_it() {
    // The part that is easy to get wrong. The object being written to does not have the
    // property at all, and the answer still comes from the chain.
    assert_eq!(
        object_logged(
            "var p = {}; Object.defineProperty(p, 'a', {value: 1}); var o = Object.create(p); o.a = 2; console.log(o.a, Object.getOwnPropertyDescriptor(o, 'a'));"
        ),
        "1 undefined"
    );
}

#[test]
fn an_object_with_no_prototype_is_named_differently_in_the_same_refusal() {
    let error = object_printed(
        "'use strict'; var o = Object.create(null); Object.defineProperty(o, 'r', {value: 1}); o.r = 2;",
    )
    .expect_err("should throw");
    assert!(
        error.contains("Cannot assign to read only property 'r' of object '[object Object]'"),
        "unexpected error: {error}"
    );
}

#[test]
fn a_configurable_property_can_be_redefined_into_anything() {
    assert_eq!(
        object_logged(
            "var o = {a: 1}; Object.defineProperty(o, 'a', {value: 2, writable: false, enumerable: false, configurable: false}); console.log(Object.getOwnPropertyDescriptor(o, 'a'));"
        ),
        "{ value: 2, writable: false, enumerable: false, configurable: false }"
    );
}

#[test]
fn a_non_configurable_property_can_only_ever_become_less_permissive() {
    for source in [
        "Object.defineProperty(o, 'a', {configurable: true});",
        "Object.defineProperty(o, 'a', {enumerable: true});",
        "Object.defineProperty(o, 'a', {writable: true});",
        "Object.defineProperty(o, 'a', {value: 2});",
    ] {
        let program =
            format!("var o = {{}}; Object.defineProperty(o, 'a', {{value: 1}}); {source}");
        let error = object_printed(&program).expect_err("should throw");
        assert!(
            error.contains("Cannot redefine property: a"),
            "unexpected error for {source}: {error}"
        );
    }
}

#[test]
fn a_redefinition_that_changes_nothing_is_allowed_however_locked_down_it_is() {
    // Every one of these asks for exactly what is already true, and asking for what is already
    // true is not a change. An empty descriptor asks for nothing at all.
    assert_eq!(
        object_logged(
            "var o = {}; Object.defineProperty(o, 'a', {value: 1}); Object.defineProperty(o, 'a', {}); Object.defineProperty(o, 'a', {value: 1}); Object.defineProperty(o, 'a', {enumerable: false, writable: false, configurable: false}); console.log(o.a);"
        ),
        "1"
    );
}

#[test]
fn writing_the_same_value_back_is_the_same_value_and_not_strict_equality() {
    // `NaN === NaN` is false and `SameValue(NaN, NaN)` is true, so a non writable `NaN` can be
    // redefined to `NaN`. Negative zero is the case that goes the other way.
    assert_eq!(
        object_logged(
            "var o = {}; Object.defineProperty(o, 'a', {value: NaN}); Object.defineProperty(o, 'a', {value: NaN}); console.log(o.a);"
        ),
        "NaN"
    );
    let error = object_printed(
        "var o = {}; Object.defineProperty(o, 'a', {value: 0}); Object.defineProperty(o, 'a', {value: -0});",
    )
    .expect_err("should throw");
    assert!(
        error.contains("Cannot redefine property: a"),
        "unexpected error: {error}"
    );
}

#[test]
fn a_writable_property_that_cannot_be_configured_can_still_change_its_value() {
    assert_eq!(
        object_logged(
            "var o = {}; Object.defineProperty(o, 'w', {value: 1, writable: true}); Object.defineProperty(o, 'w', {value: 2}); console.log(o.w);"
        ),
        "2"
    );
}

#[test]
fn a_flag_is_converted_rather_than_having_to_be_a_boolean() {
    assert_eq!(
        object_logged(
            "var o = {}; Object.defineProperty(o, 'k', {value: 1, writable: 0, enumerable: 'yes'}); console.log(Object.getOwnPropertyDescriptor(o, 'k'));"
        ),
        "{ value: 1, writable: false, enumerable: true, configurable: false }"
    );
}

#[test]
fn a_descriptor_is_read_through_its_prototype_chain_like_any_other_object() {
    assert_eq!(
        object_logged("console.log(Object.defineProperty({}, 'x', Object.create({value: 7})).x);"),
        "7"
    );
}

#[test]
fn defining_on_something_that_is_not_an_object_names_the_builtin_that_refused() {
    let error = object_printed("Object.defineProperty(1, 'x', {});").expect_err("should throw");
    assert!(
        error.contains("Object.defineProperty called on non-object"),
        "unexpected error: {error}"
    );
    let error = object_printed("Object.defineProperties(1, {});").expect_err("should throw");
    assert!(
        error.contains("Object.defineProperties called on non-object"),
        "unexpected error: {error}"
    );
}

#[test]
fn a_descriptor_that_is_not_an_object_says_what_was_passed_instead() {
    let error = object_printed("Object.defineProperty({}, 'x', 1);").expect_err("should throw");
    assert!(
        error.contains("Property description must be an object: 1"),
        "unexpected error: {error}"
    );
}

#[test]
fn a_descriptor_with_an_accessor_and_a_value_is_a_type_error_and_not_a_gap() {
    // This one does not need receivers to be answered correctly, so it is answered rather than
    // refused, and in the words node uses.
    let error = object_printed("Object.defineProperty({}, 'x', {get: function () {}, value: 1});")
        .expect_err("should throw");
    assert!(
        error.contains(
            "Cannot both specify accessors and a value or writable attribute, #<Object>"
        ),
        "unexpected error: {error}"
    );
}

#[test]
fn a_getter_is_defined_and_called_by_reading_the_property() {
    assert_eq!(
        object_logged(
            "var o = {}; Object.defineProperty(o, 'x', {get: function () { return 41 + 1; }}); console.log(o.x);"
        ),
        "42"
    );
}

#[test]
fn a_setter_is_defined_and_called_by_writing_the_property() {
    // The value written reaches the setter and the setter's `this` is the object, which is the
    // whole reason a setter is worth having over a plain property.
    assert_eq!(
        object_logged(
            "var o = {}; Object.defineProperty(o, 'x', {set: function (v) { this.seen = v * 2; }}); o.x = 21; console.log(o.seen);"
        ),
        "42"
    );
}

#[test]
fn an_accessor_prints_as_what_it_is_rather_than_as_what_it_would_say() {
    assert_eq!(
        object_logged(
            "var o = {}; Object.defineProperty(o, 'g', {get: function () { return 1; }, enumerable: true}); Object.defineProperty(o, 's', {set: function (v) {}, enumerable: true}); Object.defineProperty(o, 'b', {get: function () { return 1; }, set: function (v) {}, enumerable: true}); console.log(o);"
        ),
        "{ g: [Getter], s: [Setter], b: [Getter/Setter] }"
    );
}

#[test]
fn a_descriptor_reports_the_two_halves_instead_of_a_value() {
    assert_eq!(
        object_logged(
            "var o = {}; Object.defineProperty(o, 'x', {get: function () { return 1; }, enumerable: true, configurable: true}); var d = Object.getOwnPropertyDescriptor(o, 'x'); console.log(typeof d.get, typeof d.set, d.enumerable, d.configurable);"
        ),
        "function undefined true true"
    );
}

#[test]
fn a_half_the_descriptor_does_not_mention_is_kept() {
    assert_eq!(
        object_logged(
            "var o = {}; Object.defineProperty(o, 'x', {get: function () { return 1; }, configurable: true, enumerable: true}); Object.defineProperty(o, 'x', {set: function (v) {}}); var d = Object.getOwnPropertyDescriptor(o, 'x'); console.log(typeof d.get, typeof d.set, d.enumerable, d.configurable);"
        ),
        "function function true true"
    );
}

#[test]
fn a_getter_with_no_setter_is_silent_in_sloppy_mode_and_throws_in_strict_mode() {
    assert_eq!(
        object_logged(
            "var o = {}; Object.defineProperty(o, 'x', {get: function () { return 7; }}); o.x = 9; console.log(o.x);"
        ),
        "7"
    );
    assert_eq!(
        object_logged(
            "'use strict'; var o = {}; Object.defineProperty(o, 'x', {get: function () { return 7; }}); try { o.x = 9; } catch (e) { console.log(e.message); }"
        ),
        "Cannot set property x of #<Object> which has only a getter"
    );
}

#[test]
fn a_setter_on_a_prototype_receives_the_writes_of_everything_below_it() {
    // The mechanism that makes one accessor on a prototype answer for every instance. The write
    // goes to the setter rather than adding an own property, and `this` inside it is the object
    // that was written to and not the prototype the setter was found on.
    assert_eq!(
        object_logged(
            "var proto = {}; Object.defineProperty(proto, 'p', {set: function (v) { this.stored = v; }, get: function () { return this.stored; }}); var child = Object.create(proto); child.p = 42; console.log(child.p, child);"
        ),
        "42 { stored: 42 }"
    );
}

#[test]
fn a_half_that_is_not_a_function_is_refused_by_the_half_it_is() {
    let error = object_printed("Object.defineProperty({}, 'x', {get: 5});").expect_err("should throw");
    assert!(
        error.contains("Getter must be a function: 5"),
        "unexpected error: {error}"
    );
    let error =
        object_printed("Object.defineProperty({}, 'x', {set: 'no'});").expect_err("should throw");
    assert!(
        error.contains("Setter must be a function: no"),
        "unexpected error: {error}"
    );
}

#[test]
fn a_non_configurable_accessor_cannot_have_either_half_moved() {
    let error = object_printed(
        "var o = {}; Object.defineProperty(o, 'x', {get: function () { return 1; }}); Object.defineProperty(o, 'x', {get: function () { return 2; }});",
    )
    .expect_err("should throw");
    assert!(
        error.contains("Cannot redefine property: x"),
        "unexpected error: {error}"
    );
}

#[test]
fn a_configurable_accessor_can_become_a_data_property_and_back() {
    assert_eq!(
        object_logged(
            "var o = {}; Object.defineProperty(o, 'x', {get: function () { return 1; }, configurable: true}); Object.defineProperty(o, 'x', {value: 9}); var d = Object.getOwnPropertyDescriptor(o, 'x'); console.log(d.value, d.writable, d.enumerable, d.configurable);"
        ),
        "9 false false true"
    );
}

#[test]
fn stringifying_an_accessor_refuses_by_name_because_it_would_have_to_call_it() {
    let error = object_printed(
        "var o = {}; Object.defineProperty(o, 'x', {get: function () { return 1; }, enumerable: true}); JSON.stringify(o);",
    )
    .expect_err("should throw");
    assert!(
        error.contains("means calling a getter"),
        "unexpected error: {error}"
    );
}

#[test]
fn every_descriptor_is_read_before_any_of_them_is_applied() {
    assert_eq!(
        object_logged(
            "var o = {}; try { Object.defineProperties(o, {a: {value: 1}, b: 2}); } catch (e) { console.log(e.message); } console.log(o.a);"
        ),
        "Property description must be an object: 2\nundefined"
    );
}

#[test]
fn defining_many_properties_at_once_applies_all_of_them() {
    assert_eq!(
        object_logged(
            "var o = Object.defineProperties({}, {a: {value: 1, enumerable: true}, b: {value: 2}}); console.log(o, o.b);"
        ),
        "{ a: 1 } 2"
    );
}

#[test]
fn describing_a_name_the_object_does_not_have_of_its_own_is_undefined() {
    assert_eq!(
        object_logged(
            "var o = Object.create({up: 1}); console.log(Object.getOwnPropertyDescriptor(o, 'up'), Object.getOwnPropertyDescriptor(o, 'nope'));"
        ),
        "undefined undefined"
    );
}

#[test]
fn describing_undefined_or_null_throws_and_describing_a_number_does_not() {
    let error =
        object_printed("Object.getOwnPropertyDescriptor(null, 'x');").expect_err("should throw");
    assert!(
        error.contains("Cannot convert undefined or null to object"),
        "unexpected error: {error}"
    );
    // A number boxes into a wrapper that never has own properties, so `undefined` is the honest
    // answer as well as node's.
    assert_eq!(
        object_logged("console.log(Object.getOwnPropertyDescriptor(1, 'x'));"),
        "undefined"
    );
}

#[test]
fn describing_a_string_refuses_rather_than_answering_undefined() {
    // A string wrapper really does have `length` and one property per character, so `undefined`
    // would be a wrong answer rather than a missing one.
    let error =
        object_printed("Object.getOwnPropertyDescriptor('ab', 'length');").expect_err("should throw");
    assert!(
        error.contains("it needs the wrapper prototypes"),
        "unexpected error: {error}"
    );
}

#[test]
fn the_statics_on_object_are_hidden_the_way_every_namespace_object_is() {
    // `Object` is a function and prints as one now, and neither it nor `JSON` shows a single one
    // of the names on it, because every static is non enumerable. Node writes `[Function:
    // Object] Object [JSON] {}`, where the tag in front of the empty braces comes from
    // `Symbol.toStringTag` and there are no symbols yet.
    assert_eq!(
        object_logged("console.log(Object, JSON);"),
        "[Function: Object] {}"
    );
}

#[test]
fn object_prototype_cannot_be_moved_out_from_under_running_code() {
    assert_eq!(
        object_logged(
            "console.log(Object.getOwnPropertyDescriptor(Object, 'prototype').writable, Object.getOwnPropertyDescriptor(Object, 'prototype').configurable);"
        ),
        "false false"
    );
}

#[test]
fn object_is_a_function_and_says_so() {
    // The whole point of the change. It used to answer "object" here and "function" in node.
    assert_eq!(
        object_logged("console.log(typeof Object, typeof Object.create, Object);"),
        "function function [Function: Object]"
    );
}

#[test]
fn every_object_in_the_realm_knows_the_constructor_that_would_have_made_it() {
    assert_eq!(
        object_logged(
            "console.log(({}).constructor === Object, Object.prototype.constructor === Object, Object.create(null).constructor);"
        ),
        "true true undefined"
    );
}

#[test]
fn object_constructor_is_hidden_the_way_node_hides_it() {
    // Node breaks this one over five lines too, because the single line would be too long, and
    // the four flags read the same either way.
    assert_eq!(
        object_logged(
            "console.log(Object.getOwnPropertyDescriptor(Object.prototype, 'constructor'));"
        ),
        "{\n  value: [Function: Object],\n  writable: true,\n  enumerable: false,\n  configurable: true\n}"
    );
}

#[test]
fn calling_object_makes_something_out_of_nothing_and_hands_everything_else_back() {
    assert_eq!(
        object_logged(
            "var o = {}; var f = function () {};\n\
             console.log(typeof Object(), Object(undefined).a, Object(null) !== o, Object(o) === o, Object(f) === f);"
        ),
        "object undefined true true true"
    );
}

#[test]
fn calling_object_on_a_primitive_refuses_rather_than_handing_the_primitive_back() {
    // Node answers with a `Number` wrapper here. Handing back the number itself would be a wrong
    // answer that a program could not tell from the right one until it tried to add a property.
    let error = object_printed("Object(1);").expect_err("should throw");
    assert!(
        error.contains("boxing a primitive needs the wrapper prototypes"),
        "unexpected error: {error}"
    );
}

#[test]
fn a_function_answers_the_same_questions_about_its_own_properties_that_an_object_does() {
    assert_eq!(
        object_logged(
            "function Foo() {} Foo.bar = 1;\n\
             console.log(Foo.hasOwnProperty('bar'), Foo.hasOwnProperty('prototype'), Foo.hasOwnProperty('nope'), Foo.propertyIsEnumerable('bar'), Foo.propertyIsEnumerable('prototype'));"
        ),
        "true true false true false"
    );
}

#[test]
fn a_static_can_be_defined_on_a_function_the_way_the_standard_library_defines_them() {
    assert_eq!(
        object_logged(
            "function Foo() {} Object.defineProperty(Foo, 'hidden', {value: 2});\n\
             console.log(Foo.hidden, Object.getOwnPropertyDescriptor(Foo, 'hidden'), Foo.propertyIsEnumerable('hidden'));"
        ),
        "2 { value: 2, writable: false, enumerable: false, configurable: false } false"
    );
}

#[test]
fn describing_a_function_answers_for_what_it_carries_and_for_what_it_was_born_with() {
    assert_eq!(
        object_logged(
            "function Foo() {} Foo.bar = 1;\n\
             console.log(Object.getOwnPropertyDescriptor(Foo, 'bar'), Object.getOwnPropertyDescriptor(Foo, 'prototype'), Object.getOwnPropertyDescriptor(Foo, 'nope'));"
        ),
        "{ value: 1, writable: true, enumerable: true, configurable: true } { value: {}, writable: true, enumerable: false, configurable: false } undefined"
    );
}

#[test]
fn one_function_prototype_sits_above_every_function_including_object() {
    assert_eq!(
        object_logged(
            "function a() {} function b() {}\n\
             console.log(Object.getPrototypeOf(a) === Object.getPrototypeOf(b), Object.getPrototypeOf(Object) === Object.getPrototypeOf(a), Object.getPrototypeOf(Object.getPrototypeOf(a)) === Object.prototype);"
        ),
        "true true true"
    );
}

#[test]
fn inheriting_from_a_function_refuses_rather_than_inheriting_from_its_properties() {
    let error = object_printed("Object.create(function () {});").expect_err("should throw");
    assert!(
        error.contains("a prototype link can only point at an ordinary object"),
        "unexpected error: {error}"
    );
}

#[test]
fn a_refusal_cannot_be_caught_because_it_is_not_a_program_error() {
    // Same rule as the rest of the runtime. A gap is the runtime's fault and a `catch` written
    // for bad input would swallow it and report the wrong thing.
    let error =
        object_printed("try { Object.getPrototypeOf(1); } catch (e) { console.log('caught'); }")
            .expect_err("should not be catchable");
    assert!(
        error.contains("it needs the wrapper prototypes"),
        "unexpected error: {error}"
    );
}

#[test]
fn an_index_found_on_a_prototype_is_reached_from_below() {
    // The read that goes through the element storage misses, and the walk that follows has to
    // ask each level for its elements as well as for its names. A walk that only asks for names
    // answers undefined here, which is what this build did before the chain learned about them.
    assert_eq!(
        object_logged(
            "var p = {}; p[0] = 'proto'; var c = Object.create(p); console.log(c[0], c['0']);"
        ),
        "proto proto"
    );
}

#[test]
fn an_index_written_below_shadows_the_one_above_and_leaves_it_alone() {
    assert_eq!(
        object_logged(
            "var p = {}; p[0] = 'proto'; var c = Object.create(p); c[0] = 'own'; console.log(c[0], p[0]);"
        ),
        "own proto"
    );
}

#[test]
fn an_index_is_serialised_by_json_the_way_a_name_is() {
    assert_eq!(
        object_logged("var o = {}; o[0] = 1; console.log(JSON.stringify(o));"),
        "{\"0\":1}"
    );
}

#[test]
fn the_indices_come_before_the_names_whatever_order_they_arrived_in() {
    assert_eq!(
        object_logged(
            "var o = {}; o.x = 1; o[2] = 2; o[0] = 3; o.a = 4; console.log(JSON.stringify(o));"
        ),
        "{\"0\":3,\"2\":2,\"x\":1,\"a\":4}"
    );
}

#[test]
fn an_index_has_the_descriptor_an_assignment_makes() {
    assert_eq!(
        object_logged("var o = {}; o[0] = 1; console.log(Object.getOwnPropertyDescriptor(o, '0'));"),
        "{ value: 1, writable: true, enumerable: true, configurable: true }"
    );
}

#[test]
fn the_methods_that_ask_about_own_properties_all_see_an_index() {
    assert_eq!(
        object_logged(
            "var o = {}; o[0] = 1; console.log(o.hasOwnProperty('0'), o.hasOwnProperty(0), o.hasOwnProperty('00'), o.propertyIsEnumerable('0'));"
        ),
        "true true false true"
    );
}

#[test]
fn an_index_too_sparse_for_an_array_is_still_one_property_once_the_array_grows_past_it() {
    // The first write is too far past the end to be worth an array, so it is stored as a name.
    // Filling in everything below it then grows the array out past that index, and the write
    // that follows has to find the name and stay with it. Storing it in the array instead would
    // leave the same property in two places, and which one answered would depend on the reader.
    assert_eq!(
        object_logged(
            "var o = {}; o[3000] = 'named'; for (var i = 0; i < 3000; i++) o[i] = i; o[3000] = 'again'; console.log(o[3000], o['3000']);"
        ),
        "again again"
    );
}

#[test]
fn defining_an_index_with_the_default_flags_puts_it_where_an_assignment_would() {
    assert_eq!(
        object_logged(
            "var o = {}; Object.defineProperty(o, '0', {value: 7, writable: true, enumerable: true, configurable: true}); console.log(o[0], JSON.stringify(o));"
        ),
        "7 {\"0\":7}"
    );
}

#[test]
fn defining_an_index_with_anything_else_puts_it_under_the_name_and_leaves_it_there() {
    // The element storage holds values and not flags, so a hidden or a read only index has to be
    // an ordinary property. What matters is that it is only one property afterwards: the slot it
    // would have used is marked, so the assignment below finds the name rather than writing an
    // element beside it and leaving the object answering two ways.
    assert_eq!(
        object_logged(
            "var o = {}; Object.defineProperty(o, '0', {value: 7}); console.log(o[0], JSON.stringify(o), Object.getOwnPropertyDescriptor(o, '0'));"
        ),
        "7 {} { value: 7, writable: false, enumerable: false, configurable: false }"
    );
    assert_eq!(
        object_logged(
            "var o = {}; Object.defineProperty(o, '0', {value: 7, writable: true}); o[0] = 9; console.log(o[0], o['0'], JSON.stringify(o));"
        ),
        "9 9 {}"
    );
}

#[test]
fn an_index_that_started_as_a_name_stays_one_after_the_array_grows_over_it() {
    // The element storage is asked to cover index 8 by the loop, and index 3 is already a name
    // by then. Without the mark the write would land in the array and the object would hold `3`
    // twice, answering `9` to one reader and `7` to another.
    assert_eq!(
        object_logged(
            "var o = {}; Object.defineProperty(o, '3', {value: 7, writable: true}); for (var i = 0; i < 9; i++) if (i !== 3) o[i] = i; o[3] = 9; console.log(o[3], o['3'], JSON.stringify(o));"
        ),
        "9 9 {\"0\":0,\"1\":1,\"2\":2,\"4\":4,\"5\":5,\"6\":6,\"7\":7,\"8\":8}"
    );
}

#[test]
fn negative_zero_is_index_zero_because_that_is_how_it_spells() {
    assert_eq!(
        object_logged("var o = {}; o[0] = 'zero'; console.log(o[-0], o[0.0], o['0']);"),
        "zero zero zero"
    );
}

#[test]
fn only_the_canonical_spelling_of_a_number_is_an_index() {
    assert_eq!(
        object_logged(
            "var o = {}; o[1] = 'a'; console.log(o[1.0], o['1'], o['01'], o['+1'], o[' 1']);"
        ),
        "a a undefined undefined undefined"
    );
}

// The error constructors.

fn error_printed(source: &str) -> Result<String, String> {
    run(
        &[Part::Globals, Part::Object, Part::Function, Part::Error, Part::Text, Part::Json, Part::Console],
        source,
    )
}

/// What a program printed, with the trailing newline off, for a program that should not fail.
fn error_logged(source: &str) -> String {
    let text = error_printed(source).expect("the program should run");
    text.strip_suffix('\n').unwrap_or(&text).to_owned()
}

#[test]
fn all_seven_are_functions_in_the_global_scope() {
    assert_eq!(
        error_logged(
            "console.log(typeof Error, typeof TypeError, typeof RangeError, typeof ReferenceError, typeof SyntaxError, typeof EvalError, typeof URIError);"
        ),
        "function function function function function function function"
    );
}

#[test]
fn a_subclass_prototype_inherits_from_the_error_prototype() {
    // The link that makes `catch (e) { if (e instanceof Error) }` work for every kind, which is
    // how nearly all real code looks at an error.
    assert_eq!(
        error_logged(
            "var e = new TypeError('x'); console.log(e instanceof TypeError, e instanceof Error, Object.getPrototypeOf(TypeError.prototype) === Error.prototype);"
        ),
        "true true true"
    );
}

#[test]
fn new_and_a_plain_call_build_the_same_thing() {
    assert_eq!(
        error_logged(
            "var a = new RangeError('x'); var b = RangeError('x'); console.log(b instanceof RangeError, a.message === b.message, Object.getPrototypeOf(a) === Object.getPrototypeOf(b));"
        ),
        "true true true"
    );
}

#[test]
fn name_and_message_come_off_the_prototype_until_there_is_one_of_its_own() {
    assert_eq!(
        error_logged(
            "var e = new Error(); console.log(e.name, JSON.stringify(e.message), e.hasOwnProperty('message'), new Error('x').hasOwnProperty('message'));"
        ),
        "Error \"\" false true"
    );
}

#[test]
fn the_message_is_converted_the_way_every_other_conversion_is() {
    assert_eq!(
        error_logged("console.log(new Error(1.5).message, new Error(null).message);"),
        "1.5 null"
    );
}

#[test]
fn a_cause_is_defined_only_when_the_options_bag_has_one() {
    assert_eq!(
        error_logged(
            "console.log(new Error('x', { cause: 7 }).cause, new Error('x', {}).hasOwnProperty('cause'), new Error('x').hasOwnProperty('cause'), new Error('x', 7).hasOwnProperty('cause'));"
        ),
        "7 false false false"
    );
}

#[test]
fn to_string_drops_the_half_that_is_empty() {
    assert_eq!(
        error_logged(
            "console.log(String(new Error()), '|', String(new TypeError('m')), '|', Error.prototype.toString());"
        ),
        "Error | TypeError: m | Error"
    );
}

#[test]
fn to_string_reads_the_name_the_program_put_there() {
    assert_eq!(
        error_logged("var e = new Error('m'); e.name = 'Boom'; console.log(String(e), '' + e);"),
        "Boom: m Boom: m"
    );
}

#[test]
fn a_prototype_carries_what_node_says_it_carries() {
    // Node's own property names are `constructor,name,message,toString` on `Error.prototype` and
    // `constructor,name,message` on every subclass. `Object.getOwnPropertyNames` does not exist
    // yet, so the same fact is asked one name at a time.
    assert_eq!(
        error_logged(
            "var e = Error.prototype, t = TypeError.prototype;\n\
             console.log(e.hasOwnProperty('constructor'), e.hasOwnProperty('name'), e.hasOwnProperty('message'), e.hasOwnProperty('toString'));\n\
             console.log(t.hasOwnProperty('constructor'), t.hasOwnProperty('name'), t.hasOwnProperty('message'), t.hasOwnProperty('toString'));"
        ),
        "true true true true\ntrue true true false"
    );
}

#[test]
fn the_link_between_a_constructor_and_its_prototype_cannot_be_rewritten() {
    assert_eq!(
        error_logged(
            "var d = Object.getOwnPropertyDescriptor(TypeError, 'prototype'); console.log(d.writable, d.enumerable, d.configurable, TypeError.prototype.constructor === TypeError);"
        ),
        "false false false true"
    );
}

#[test]
fn everything_on_a_prototype_is_hidden_the_way_node_hides_it() {
    assert_eq!(
        error_logged(
            "var d = Object.getOwnPropertyDescriptor(Error.prototype, 'name'); console.log(d.value, d.writable, d.enumerable, d.configurable);"
        ),
        "Error true false true"
    );
}

#[test]
fn an_error_the_engine_throws_is_an_instance_of_the_right_one() {
    // The reason the interpreter knows about these prototypes at all. Before this file an engine
    // error was a plain object and `e instanceof TypeError` was false.
    assert_eq!(
        error_logged(
            "try { null.x; } catch (e) { console.log(e instanceof TypeError, e instanceof Error, e.name); }"
        ),
        "true true TypeError"
    );
}

#[test]
fn a_thrown_error_prints_the_way_node_prints_it() {
    assert_eq!(
        error_logged("try { throw new TypeError('bad'); } catch (e) { console.log(e); }"),
        "[TypeError: bad]"
    );
}

#[test]
fn printing_an_error_says_the_name_once() {
    // Node drops a `name` or a `message` that the first line already says, so an error that was
    // renamed prints as `[Boom: m] { code: 42 }` and not with the name repeated after it.
    assert_eq!(
        error_logged("var e = new Error('m'); e.code = 42; e.name = 'Boom'; console.log(e);"),
        "[Boom: m] { code: 42 }"
    );
}

#[test]
fn printing_an_error_shows_the_cause_the_constructor_hid() {
    // The one property node prints even though it is not enumerable, with the brackets that say
    // so. An error that says what it was caused by is saying the most useful thing it has.
    assert_eq!(
        error_logged(
            "console.log(new RangeError('r', { cause: 'why' }));\n\
             var own = new Error('m'); own.cause = 'set';\n\
             console.log(own);"
        ),
        "[RangeError: r] { [cause]: 'why' }\n[Error: m] { cause: 'set' }"
    );
}

#[test]
fn converting_an_error_goes_through_the_to_string_it_inherits() {
    // `'' + e` is how a great deal of real code prints the error it caught, and before the
    // conversion learned to call a `toString` written in Rust it answered `[object Object]`.
    assert_eq!(
        error_logged("console.log('caught: ' + new TypeError('m'), String(new EvalError()));"),
        "caught: TypeError: m EvalError"
    );
}

#[test]
fn a_conversion_that_never_ends_is_the_error_node_gives_for_one() {
    // An error whose `name` is itself converts by converting itself, which recurses in Rust
    // rather than on the interpreter's stack, so the frame limit never sees it.
    assert_eq!(
        error_logged(
            "var e = new Error('m'); e.name = e;\n\
             try { String(e); } catch (x) { console.log(x instanceof RangeError, x.message); }"
        ),
        "true Maximum call stack size exceeded"
    );
}

// `Function`.

fn function_printed(source: &str) -> Result<String, String> {
    run(
        &[Part::Globals, Part::Object, Part::Function, Part::Console],
        source,
    )
}

/// What a program printed, with the trailing newline off, for a program that should not fail.
fn function_logged(source: &str) -> String {
    let text = function_printed(source).expect("the program should run");
    text.strip_suffix('\n').unwrap_or(&text).to_owned()
}

#[test]
fn every_function_answers_with_function_and_not_with_object() {
    // The reason this module exists. `constructor` is inherited from `Object.prototype` by
    // everything, so without the link installed here a function would name the wrong maker.
    assert_eq!(
        function_logged(
            "function f() {}\n\
             console.log(f.constructor === Function, Object.constructor === Function, ({}).constructor === Object);"
        ),
        "true true true"
    );
}

#[test]
fn function_is_a_function_and_sits_on_its_own_prototype() {
    assert_eq!(
        function_logged(
            "console.log(typeof Function, Object.getPrototypeOf(Function) === Function.prototype, Object.getPrototypeOf(Function.prototype) === Object.prototype);"
        ),
        "function true true"
    );
}

#[test]
fn a_function_written_by_a_program_inherits_the_same_prototype_object() {
    assert_eq!(
        function_logged(
            "function f() {} console.log(Object.getPrototypeOf(f) === Function.prototype, Function.prototype.constructor === Function);"
        ),
        "true true"
    );
}

#[test]
fn the_link_between_function_and_its_prototype_cannot_be_rewritten() {
    assert_eq!(
        function_logged(
            "var d = Object.getOwnPropertyDescriptor(Function, 'prototype'); console.log(d.writable, d.enumerable, d.configurable);"
        ),
        "false false false"
    );
}

#[test]
fn function_constructor_is_hidden_the_way_node_hides_it() {
    assert_eq!(
        function_logged(
            "var d = Object.getOwnPropertyDescriptor(Function.prototype, 'constructor'); console.log(d.value === Function, d.writable, d.enumerable, d.configurable);"
        ),
        "true true false true"
    );
}

#[test]
fn building_a_function_out_of_text_refuses_by_name() {
    let error = function_printed("Function('return 1');").expect_err("should throw");
    assert!(
        error.contains("needs the same decisions as eval"),
        "unexpected error: {error}"
    );
}

// `JSON`.

fn json_printed(source: &str) -> Result<String, String> {
    run(
        &[Part::Globals, Part::Text, Part::Performance, Part::Json, Part::Console],
        source,
    )
}

/// What one expression printed, with the trailing newline off.
fn json_logged(expression: &str) -> String {
    let text = json_printed(&format!("console.log({expression})")).expect("should not throw");
    text.trim_end_matches('\n').to_owned()
}

#[test]
fn every_primitive_serializes_the_way_node_serializes_it() {
    // `String(...)` around the call so that the answer `undefined` prints as a word rather than
    // going through the console's own idea of how to show it.
    for (source, expected) in [
        ("String(JSON.stringify(undefined))", "undefined"),
        ("JSON.stringify(null)", "null"),
        ("JSON.stringify(true)", "true"),
        ("JSON.stringify(false)", "false"),
        ("JSON.stringify(0)", "0"),
        ("JSON.stringify(1.5)", "1.5"),
        ("JSON.stringify('hi')", "\"hi\""),
        ("JSON.stringify(1e21)", "1e+21"),
        ("JSON.stringify(1e-7)", "1e-7"),
    ] {
        assert_eq!(json_logged(source), expected, "{source}");
    }
}

#[test]
fn the_numbers_json_has_no_spelling_for_become_null() {
    // The lossy corner of the format, and the reason a round trip is not a round trip. All three
    // of these were checked under node rather than remembered.
    assert_eq!(json_logged("JSON.stringify(NaN)"), "null");
    assert_eq!(json_logged("JSON.stringify(Infinity)"), "null");
    assert_eq!(json_logged("JSON.stringify(-Infinity)"), "null");
    assert_eq!(
        json_logged("JSON.stringify({n: NaN, i: Infinity})"),
        "{\"n\":null,\"i\":null}"
    );
}

#[test]
fn negative_zero_serializes_as_zero_and_the_sign_is_gone() {
    // Worth its own test because it is the one value that survives `console.log` and does not
    // survive JSON, so a program that prints it and a program that serializes it disagree.
    assert_eq!(json_logged("JSON.stringify(-0)"), "0");
    assert_eq!(json_logged("JSON.stringify({z: -0})"), "{\"z\":0}");
}

#[test]
fn a_value_with_no_json_spelling_disappears_rather_than_becoming_null() {
    // Dropped inside an object and `undefined` at the top level, which is two different answers
    // for the same absence and both of them are node's.
    assert_eq!(
        json_logged("JSON.stringify({a: 1, b: undefined, c: 2})"),
        "{\"a\":1,\"c\":2}"
    );
    assert_eq!(
        json_logged("JSON.stringify({f: function () {}, u: undefined})"),
        "{}"
    );
    assert_eq!(
        json_logged("String(JSON.stringify(function () {}))"),
        "undefined"
    );
}

#[test]
fn objects_nest_and_keep_the_order_the_properties_were_added_in() {
    assert_eq!(json_logged("JSON.stringify({})"), "{}");
    assert_eq!(
        json_logged("JSON.stringify({a: 1, b: 'x', c: true, d: null, f: {g: 2}})"),
        "{\"a\":1,\"b\":\"x\",\"c\":true,\"d\":null,\"f\":{\"g\":2}}"
    );
    assert_eq!(
        json_logged("JSON.stringify({z: 1, a: 2, m: 3})"),
        "{\"z\":1,\"a\":2,\"m\":3}"
    );
}

#[test]
fn a_key_is_quoted_and_escaped_the_same_way_a_value_is() {
    assert_eq!(json_logged("JSON.stringify({'k e y': 1})"), "{\"k e y\":1}");
    assert_eq!(json_logged("JSON.stringify({'\"q\"': 2})"), "{\"\\\"q\\\"\":2}");
}

#[test]
fn only_the_quote_the_backslash_and_the_controls_are_escaped() {
    // The rule that keeps the output small. An accented letter is two bytes of UTF-8 rather than
    // six characters of escape, and node does not escape it either.
    assert_eq!(json_logged("JSON.stringify('a\"b')"), "\"a\\\"b\"");
    assert_eq!(json_logged("JSON.stringify('a\\\\b')"), "\"a\\\\b\"");
    assert_eq!(json_logged("JSON.stringify('a\\nb')"), "\"a\\nb\"");
    assert_eq!(json_logged("JSON.stringify('a\\tb')"), "\"a\\tb\"");
    assert_eq!(json_logged("JSON.stringify('a\\u0001b')"), "\"a\\u0001b\"");
    assert_eq!(json_logged("JSON.stringify('café 😀')"), "\"café 😀\"");
}

#[test]
fn a_number_for_space_indents_by_that_many_and_never_by_more_than_ten() {
    assert_eq!(
        json_logged("JSON.stringify({a: 1, b: {c: 2}}, null, 2)"),
        "{\n  \"a\": 1,\n  \"b\": {\n    \"c\": 2\n  }\n}"
    );
    // Clamped at ten, floored to a whole number, and anything at or below zero puts it all back
    // on one line. Every one of these four was read off node rather than reasoned about.
    assert_eq!(
        json_logged("JSON.stringify({a: 1}, null, 20)"),
        "{\n          \"a\": 1\n}"
    );
    assert_eq!(
        json_logged("JSON.stringify({a: 1}, null, 2.9)"),
        "{\n  \"a\": 1\n}"
    );
    assert_eq!(json_logged("JSON.stringify({a: 1}, null, 0)"), "{\"a\":1}");
    assert_eq!(json_logged("JSON.stringify({a: 1}, null, -1)"), "{\"a\":1}");
}

#[test]
fn a_string_for_space_indents_with_that_text() {
    assert_eq!(
        json_logged("JSON.stringify({a: 1}, null, 'ab')"),
        "{\nab\"a\": 1\n}"
    );
    assert_eq!(json_logged("JSON.stringify({a: 1}, null, '')"), "{\"a\":1}");
    assert_eq!(
        json_logged("JSON.stringify({a: 1}, null, '0123456789abc')"),
        "{\n0123456789\"a\": 1\n}"
    );
}

#[test]
fn anything_else_for_space_is_ignored_rather_than_being_an_error() {
    assert_eq!(json_logged("JSON.stringify({a: 1}, null, true)"), "{\"a\":1}");
    assert_eq!(json_logged("JSON.stringify({a: 1}, null, {})"), "{\"a\":1}");
    assert_eq!(
        json_logged("JSON.stringify({a: 1}, null, undefined)"),
        "{\"a\":1}"
    );
}

#[test]
fn an_empty_object_stays_on_one_line_even_when_an_indent_was_asked_for() {
    assert_eq!(json_logged("JSON.stringify({}, null, 2)"), "{}");
    assert_eq!(
        json_logged("JSON.stringify({a: {}}, null, 2)"),
        "{\n  \"a\": {}\n}"
    );
}

#[test]
fn a_cycle_is_a_type_error_in_the_same_words_node_uses() {
    // A real exception rather than one of our refusals, so a program can catch it, which is what
    // the second half of this test checks. The message is node's exactly, because a program that
    // matches on it should not be able to tell which engine it is running under.
    let error = json_printed("const a = {}; a.self = a; JSON.stringify(a);")
        .expect_err("a cycle should throw");
    assert!(
        error.contains("Converting circular structure to JSON"),
        "wrong message: {error}"
    );
    assert_eq!(
        json_printed(
            "const a = {}; a.self = a;
             try { JSON.stringify(a); } catch (e) { console.log('caught'); }"
        ),
        Ok("caught\n".to_owned())
    );
}

#[test]
fn the_same_object_twice_side_by_side_is_not_a_cycle() {
    // The bug every cycle check written with a set instead of a stack has. Seeing an object
    // twice is fine, seeing it while it is still being written is not.
    assert_eq!(
        json_printed(
            "const shared = {v: 1};
             console.log(JSON.stringify({a: shared, b: shared}));"
        ),
        Ok("{\"a\":{\"v\":1},\"b\":{\"v\":1}}\n".to_owned())
    );
}

#[test]
fn a_replacer_function_is_refused_rather_than_ignored() {
    // Ignoring it would hand back an unfiltered object to a program that asked for a filtered
    // one, with nothing to say that happened.
    let error = json_printed("JSON.stringify({a: 1}, function (k, v) { return v; });")
        .expect_err("a replacer should be refused");
    assert!(error.contains("replacer"), "wrong message: {error}");
}

#[test]
fn parse_refuses_by_name_and_cannot_be_caught() {
    // Not catchable on purpose. Wrapping `JSON.parse` in a `try` is how everybody writes it,
    // because bad input is the expected case, so a catchable gap would be read as bad input.
    let error = json_printed("JSON.parse('{}')").expect_err("parse should refuse");
    assert!(error.contains("JSON.parse"), "wrong message: {error}");
    let escaped = json_printed("try { JSON.parse('{}'); } catch (e) { console.log('caught'); }")
        .expect_err("our own gap should not be catchable");
    assert!(escaped.contains("JSON.parse"), "wrong message: {escaped}");
}

#[test]
fn json_is_an_object_holding_two_functions() {
    assert_eq!(json_logged("typeof JSON"), "object");
    assert_eq!(json_logged("typeof JSON.stringify"), "function");
    assert_eq!(json_logged("typeof JSON.parse"), "function");
}

#[test]
fn the_shape_of_a_benchmark_result_runs_end_to_end() {
    // The reason both of these builtins exist, written the way the workloads in
    // a suite of workloads write it. Not a timing assertion, because the number depends on the
    // machine. The assertion is that the whole shape produces the line a harness reads.
    assert_eq!(
        json_printed(
            "function fib(n) { return n < 2 ? n : fib(n - 1) + fib(n - 2); }
             const started = performance.now();
             const checksum = fib(20);
             const elapsed = performance.now() - started;
             console.log(JSON.stringify({name: 'fib', checksum: checksum, ok: elapsed >= 0}));"
        ),
        Ok("{\"name\":\"fib\",\"checksum\":6765,\"ok\":true}\n".to_owned())
    );
}

// `String`.

fn string_printed(source: &str) -> String {
    run(&[Part::Globals, Part::Text, Part::Console], source).expect("should not throw")
}

#[test]
fn every_primitive_converts_the_way_node_converts_it() {
    for (source, expected) in [
        ("String(undefined)", "undefined"),
        ("String(null)", "null"),
        ("String(true)", "true"),
        ("String(false)", "false"),
        ("String(0)", "0"),
        ("String(1.5)", "1.5"),
        ("String(NaN)", "NaN"),
        ("String(Infinity)", "Infinity"),
        ("String(-Infinity)", "-Infinity"),
        ("String('hi')", "hi"),
    ] {
        assert_eq!(
            string_printed(&format!("console.log({source})")),
            format!("{expected}\n")
        );
    }
}

#[test]
fn negative_zero_converts_to_zero_even_though_the_console_prints_it_as_minus_zero() {
    assert_eq!(string_printed("console.log(String(-0))"), "0\n");
    assert_eq!(string_printed("console.log(-0)"), "-0\n");
}

#[test]
fn an_object_converts_to_object_object_and_not_to_what_the_console_shows() {
    // The other place the two differ, and the one that surprises people. `String({a: 1})` really
    // is `[object Object]`, and a program that prints a converted object and expects to see its
    // contents is a program with a bug that we should reproduce rather than fix.
    assert_eq!(string_printed("console.log(String({}))"), "[object Object]\n");
    assert_eq!(string_printed("console.log(String({a: 1}))"), "[object Object]\n");
    assert_eq!(string_printed("console.log({a: 1})"), "{ a: 1 }\n");
}

#[test]
fn calling_it_with_nothing_is_the_empty_string_and_not_the_word_undefined() {
    // The case that is not simply the missing argument padded with `undefined`. `String()` is
    // "" and `String(undefined)` is "undefined", and getting that wrong is invisible until
    // somebody builds a string out of an optional value.
    assert_eq!(string_printed("console.log('[' + String() + ']')"), "[]\n");
    assert_eq!(
        string_printed("console.log('[' + String(undefined) + ']')"),
        "[undefined]\n"
    );
}

#[test]
fn it_agrees_with_concatenation_on_every_value_there_is() {
    // The property that matters more than any individual answer, because these are one
    // conversion in the language and two code paths would eventually be two answers. `-0` is in
    // the list on purpose: it is the value most likely to make them diverge.
    assert_eq!(
        string_printed(
            "let ok = true;
             function same(v) { if (String(v) !== '' + v) { ok = false; } }
             same(undefined); same(null); same(true); same(false);
             same(0); same(-0); same(1.5); same(NaN); same(Infinity); same(-Infinity);
             same('hi'); same({}); same({a: 1});
             console.log(ok);"
        ),
        "true\n"
    );
}

#[test]
fn it_is_a_function_and_extra_arguments_are_ignored() {
    assert_eq!(string_printed("console.log(typeof String)"), "function\n");
    assert_eq!(string_printed("console.log(String(1, 2, 3))"), "1\n");
}

#[test]
fn a_string_passed_through_comes_back_equal_to_what_went_in() {
    // Equal rather than identical, because whether the same reference comes back out is an
    // implementation detail a program cannot see, and a test that asserted on it would be a test
    // of the allocator rather than of the conversion.
    assert_eq!(
        string_printed("console.log(String('katsu') === 'katsu')"),
        "true\n"
    );
    assert_eq!(string_printed("console.log(String('') === '')"), "true\n");
}

// The value globals.

fn globals_printed(source: &str) -> Result<String, String> {
    run(
        &[Part::Globals, Part::Console],
        source,
    )
}

#[test]
fn undefined_is_a_name_a_program_can_read() {
    // The one the harness found. `let x = undefined;` is in more JavaScript than almost any
    // other expression, and it threw a ReferenceError.
    assert_eq!(
        globals_printed("console.log(undefined)"),
        Ok("undefined\n".to_owned())
    );
    assert_eq!(
        globals_printed("let x = undefined; console.log(x)"),
        Ok("undefined\n".to_owned())
    );
    assert_eq!(
        globals_printed("console.log(undefined === undefined)"),
        Ok("true\n".to_owned())
    );
}

#[test]
fn nan_is_a_name_and_is_not_equal_to_itself() {
    assert_eq!(globals_printed("console.log(NaN)"), Ok("NaN\n".to_owned()));
    assert_eq!(
        globals_printed("console.log(NaN === NaN)"),
        Ok("false\n".to_owned())
    );
    assert_eq!(globals_printed("console.log(NaN !== NaN)"), Ok("true\n".to_owned()));
}

#[test]
fn infinity_is_a_name_and_has_a_negative() {
    assert_eq!(
        globals_printed("console.log(Infinity)"),
        Ok("Infinity\n".to_owned())
    );
    assert_eq!(
        globals_printed("console.log(-Infinity)"),
        Ok("-Infinity\n".to_owned())
    );
    assert_eq!(
        globals_printed("console.log(1 / 0 === Infinity)"),
        Ok("true\n".to_owned())
    );
}

#[test]
fn typeof_still_answers_for_a_name_that_is_genuinely_not_there() {
    // The behaviour that hid the bug for as long as it did. Worth a test of its own, because it
    // is what makes `typeof x === 'undefined'` the safe way to ask about a global that may not
    // exist, and because it is what stopped every obvious test from noticing.
    assert_eq!(
        globals_printed("console.log(typeof nowhere)"),
        Ok("undefined\n".to_owned())
    );
    assert!(globals_printed("console.log(nowhere)").is_err());
}

// `console`.

fn console_printed(source: &str) -> String {
    run(&[Part::Console], source).expect("should not throw")
}

#[test]
fn console_log_prints_its_argument_and_a_newline() {
    assert_eq!(console_printed("console.log('hello')"), "hello\n");
}

#[test]
fn several_arguments_are_joined_with_one_space() {
    assert_eq!(console_printed("console.log(1, 'two', true)"), "1 two true\n");
}

#[test]
fn printing_nothing_still_prints_a_line() {
    // Which is what Node does, and it is what a program using it as a blank line expects.
    assert_eq!(console_printed("console.log()"), "\n");
}

#[test]
fn each_call_is_its_own_line_and_they_arrive_in_order() {
    assert_eq!(console_printed("console.log(1); console.log(2)"), "1\n2\n");
}

#[test]
fn a_string_at_the_top_level_prints_without_quotes() {
    // The difference between inspecting and converting, and the reason `console.log` does not
    // just call `ToString` on everything.
    assert_eq!(console_printed("console.log('katsu')"), "katsu\n");
}

#[test]
fn console_prints_from_inside_a_function_too() {
    assert_eq!(
        console_printed("function greet(name) { console.log('hello ' + name); } greet('katsu')"),
        "hello katsu\n"
    );
}

#[test]
fn every_name_on_the_console_object_is_a_function() {
    for name in ["log", "error", "warn", "info", "debug"] {
        let mut engine = engine(&[Part::Console]);
        engine.run(&format!("typeof console.{name}")).expect("should not throw");
        engine.run(&format!("console.{name}('x')")).expect("should not throw");
        assert_eq!(engine.text(), "x\n");
    }
}

#[test]
fn a_warning_and_an_error_go_to_the_other_stream() {
    // The recorder keeps both, in order, which is the arrangement that makes this testable at
    // all. That the streams really differ is the standard sink's job and it is not something a
    // unit test can see without capturing the process's own file descriptors.
    assert_eq!(
        console_printed("console.error('bad'); console.warn('careful')"),
        "bad\ncareful\n"
    );
}

#[test]
fn an_object_prints_its_contents_rather_than_object_object() {
    assert_eq!(console_printed("console.log(console.log)"), "[Function: log]\n");
}

// `performance`.

fn performance_printed(source: &str) -> String {
    run(&[Part::Performance, Part::Console], source).expect("should not throw")
}

/// The one number a program printed, as an `f64`.
fn performance_number(source: &str) -> f64 {
    let text = performance_printed(source);
    text.trim()
        .parse()
        .unwrap_or_else(|_| panic!("expected one number, got {text:?}"))
}

#[test]
fn performance_now_is_a_function_that_answers_a_number() {
    assert_eq!(performance_printed("console.log(typeof performance)"), "object\n");
    assert_eq!(performance_printed("console.log(typeof performance.now)"), "function\n");
    assert_eq!(performance_printed("console.log(typeof performance.now())"), "number\n");
}

#[test]
fn time_moves_forward_across_work_the_program_actually_did() {
    // A busy loop rather than a pair of adjacent calls, because two calls with nothing between
    // them can legitimately return the same number on a coarse clock and the assertion would be
    // flaky in exactly the way a timing test must not be.
    assert_eq!(
        performance_printed(
            "const a = performance.now();
             let sum = 0;
             for (let i = 0; i < 200000; i++) { sum += i; }
             const b = performance.now();
             console.log(b > a);"
        ),
        "true\n"
    );
}

#[test]
fn two_readings_with_nothing_between_them_never_go_backwards() {
    // The weaker property, which has to hold for every pair including the adjacent ones. This is
    // the one a benchmark relies on, because a negative elapsed time is the failure everybody
    // who has ever timed anything with a wall clock has seen.
    assert_eq!(
        performance_printed(
            "let ok = true;
             let last = performance.now();
             for (let i = 0; i < 500; i++) {
               const next = performance.now();
               if (next < last) { ok = false; }
               last = next;
             }
             console.log(ok);"
        ),
        "true\n"
    );
}

#[test]
fn the_unit_is_milliseconds_and_not_seconds_or_nanoseconds() {
    // Reachable from inside the language because the loop below takes a measurable but not
    // enormous amount of time. Seconds would put this under 1 and nanoseconds would put it over
    // a million, and the band between catches both without depending on how fast the machine is.
    let elapsed = performance_number(
        "const a = performance.now();
         let sum = 0;
         for (let i = 0; i < 3000000; i++) { sum += i; }
         console.log(performance.now() - a);",
    );
    assert!(
        (0.01..10000.0).contains(&elapsed),
        "three million additions measured as {elapsed}, which is the wrong unit"
    );
}

#[test]
fn time_origin_is_a_date_and_the_two_add_up_to_now() {
    // The relationship between the two, which is the reason both exist. It is also the assertion
    // that catches an origin taken from the monotonic clock, whose zero is the boot time on
    // Linux and something undocumented on macOS, rather than from the wall clock.
    let origin = performance_number("console.log(performance.timeOrigin)");
    let now = performance_number("console.log(performance.now())");
    let wall = std::time::SystemTime::now()
        .duration_since(std::time::UNIX_EPOCH)
        .expect("the system clock should be after 1970")
        .as_secs_f64()
        * 1000.0;
    assert!(
        (origin + now - wall).abs() < 1000.0,
        "timeOrigin {origin} plus now {now} is not the current date {wall}"
    );
}

#[test]
fn time_origin_is_the_same_number_every_time_it_is_read() {
    assert_eq!(
        performance_printed(
            "const a = performance.timeOrigin;
             let sum = 0;
             for (let i = 0; i < 200000; i++) { sum += i; }
             console.log(a === performance.timeOrigin);"
        ),
        "true\n"
    );
}

#[test]
fn extra_arguments_are_ignored_rather_than_being_an_error() {
    // What every implementation does with a builtin called with more than it takes. Worth a test
    // because the native calling convention hands over exactly what the call site passed, so a
    // native that indexed instead of ignoring would panic here.
    assert_eq!(
        performance_printed("console.log(typeof performance.now(1, 'two', true))"),
        "number\n"
    );
}

#[test]
fn the_shape_of_a_timing_harness_runs_end_to_end() {
    // The pattern every one of the six compute workloads in a suite of workloads is built around,
    // which is the reason this builtin was written. Not a number assertion, because the answer
    // depends on the machine. The assertion is that the whole shape runs at all.
    assert_eq!(
        performance_printed(
            "function work() { let n = 0; for (let i = 0; i < 100000; i++) { n += i; } return n; }
             const started = performance.now();
             const checksum = work();
             const elapsed = performance.now() - started;
             console.log(checksum === 4999950000 && elapsed >= 0);"
        ),
        "true\n"
    );
}

// The embedding API.

struct Embedded {
    engine: Engine,
}

impl Embedded {
    fn eval(&mut self, source: &str) -> Result<Value, Error> {
        match self.engine.run(source) {
            Ok(()) => Ok(Value::Undefined),
            Err(Failure::Syntax(text)) => Err(Error::from_compile(&text, false)),
            Err(Failure::Runtime(error)) => Err(Error::from_runtime(&error)),
        }
    }
}

fn runtime() -> Embedded {
    let origin = now_in_milliseconds();
    let runtime = Runtime::new(origin.to_bits(), &number_text(origin));
    Embedded { engine: Engine::new(runtime.into_realm()) }
}

#[test]
fn a_syntax_error_comes_back_as_a_syntax_error() {
    let error = runtime()
        .eval("const = ;")
        .expect_err("should not parse");
    assert!(matches!(error, Error::Syntax(_)), "got {error:?}");
}

#[test]
fn source_goes_in_and_it_runs() {
    let mut runtime = runtime();
    let value = runtime
        .eval("let name = 'katsu'; let greeting = 'hello ' + name;",
        )
        .expect("should run");
    // Undefined rather than the greeting, because a script has no completion value here yet.
    // The comment on `eval` says why, and this asserts it rather than leaving it to be
    // discovered.
    assert_eq!(runtime.engine.realm.display(value), "undefined");
}

#[test]
fn a_program_that_throws_reports_what_node_reports() {
    let mut runtime = runtime();
    let error = runtime
        .eval("const x = 1; x = 2;")
        .expect_err("should throw");
    assert_eq!(
        error.to_string(),
        "uncaught exception: TypeError: Assignment to constant variable."
    );
}

#[test]
fn a_name_that_was_never_bound_reads_as_a_reference_error() {
    let mut runtime = runtime();
    let error = runtime
        .eval("missing.log(1)")
        .expect_err("nothing is bound to missing");
    assert_eq!(
        error.to_string(),
        "uncaught exception: ReferenceError: missing is not defined"
    );
}

#[test]
fn a_program_can_print() {
    let mut runtime = runtime();
    runtime
        .eval("console.log('hello ' + 'katsu')")
        .expect("should run");
    assert_eq!(runtime.engine.text(), "hello katsu\n");
}

#[test]
fn an_exception_unwinds_out_of_the_calls_it_was_thrown_in() {
    // The reason a handler table is searched across frames rather than inside one. Node prints
    // exactly this, and the frames in between are gone by the time the handler runs.
    let mut runtime = runtime();
    runtime
        .eval("function bottom() { throw 'from the bottom'; }
             function middle() { bottom(); return 'not reached'; }
             try { middle(); } catch (e) { console.log(e); }",
        )
        .expect("the handler catches it");
    assert_eq!(runtime.engine.text(), "from the bottom\n");
}

#[test]
fn a_caught_engine_error_carries_the_name_and_the_message_node_uses() {
    // The message is word for word what Node prints, because the whole point of matching it is
    // that somebody searching the web for their error finds an answer that applies.
    let mut runtime = runtime();
    runtime
        .eval("try { null.x; } catch (e) { console.log(e.name, e.message); }",
        )
        .expect("the handler catches it");
    assert_eq!(
        runtime.engine.text(),
        "TypeError Cannot read properties of null (reading 'x')\n"
    );
}

#[test]
fn an_uncaught_throw_reports_the_value_and_not_a_message_about_it() {
    // Node's last line for `throw 'boom'` is the word on its own, and the CLI prints an
    // uncaught exception bare for exactly that reason, so a script grepping our output finds
    // what it would have found from Node.
    let mut runtime = runtime();
    let error = runtime
        .eval("throw 'boom';")
        .expect_err("nothing catches it");
    assert!(matches!(error, Error::Uncaught(_)), "got {error:?}");
    assert_eq!(error.to_string(), "uncaught exception: boom");
}

// Promises that hold of every program, on concrete ones.

const EVERYTHING: [Part; 8] = [
    Part::Globals,
    Part::Object,
    Part::Function,
    Part::Error,
    Part::Text,
    Part::Performance,
    Part::Json,
    Part::Console,
];

/// What a program with every builtin in it printed, with the trailing newline off.
fn shown(source: &str) -> String {
    let text = run(&EVERYTHING, source).expect("the program should run");
    text.strip_suffix('\n').unwrap_or(&text).to_owned()
}

#[test]
fn a_warning_and_an_error_are_written_to_standard_error() {
    let mut engine = engine(&[Part::Console]);
    engine
        .run("console.log(1); console.error(2); console.warn(3); console.info(4); console.debug(5);")
        .expect("should run");
    let streams: Vec<Stream> = engine.realm.output().iter().map(|line| line.0).collect();
    assert_eq!(streams, [Stream::Out, Stream::Error, Stream::Error, Stream::Out, Stream::Out]);
}

#[test]
fn what_is_created_inherits_from_what_it_was_given_and_the_chain_never_turns_round() {
    assert_eq!(
        shown(
            "var a = {}; var b = Object.create(a, {x: {value: 1}}); var c = Object.create(b);\n\
             console.log(Object.getPrototypeOf(b) === a, Object.getPrototypeOf(c) === b);\n\
             console.log(a.isPrototypeOf(c), c.isPrototypeOf(a), c.isPrototypeOf(c));"
        ),
        "true true\ntrue false false"
    );
}

#[test]
fn a_definition_gives_what_it_asked_for_and_touches_one_property() {
    assert_eq!(
        shown(
            "var g = function () { return 3; }; var s = function (v) {};\n\
             var o = {other: 5}; Object.defineProperty(o, 'x', {get: g, set: s, enumerable: true});\n\
             var d = Object.getOwnPropertyDescriptor(o, 'x');\n\
             console.log(d.get === g, d.set === s, d.enumerable, d.configurable, o.other, o.x);"
        ),
        "true true true false 5 3"
    );
}

#[test]
fn owning_describing_and_showing_agree_about_every_property() {
    assert_eq!(
        shown(
            "var o = {shown: 1}; Object.defineProperty(o, 'hidden', {value: 2});\n\
             function ask(k) {\n\
               console.log(o.hasOwnProperty(k), Object.getOwnPropertyDescriptor(o, k) !== undefined, o.propertyIsEnumerable(k));\n\
             }\n\
             ask('shown'); ask('hidden'); ask('toString');"
        ),
        "true true true\ntrue true false\nfalse false false"
    );
}

#[test]
fn an_accessor_that_says_writable_becomes_a_data_property_when_it_may() {
    assert_eq!(
        shown(
            "var o = {}; Object.defineProperty(o, 'x', {get: function () { return 1; }, configurable: true});\n\
             Object.defineProperty(o, 'x', {writable: true});\n\
             var d = Object.getOwnPropertyDescriptor(o, 'x');\n\
             console.log(d.value, d.writable, d.enumerable, d.configurable);"
        ),
        "undefined true false true"
    );
    let error = run(
        &EVERYTHING,
        "var o = {}; Object.defineProperty(o, 'x', {get: function () { return 1; }}); Object.defineProperty(o, 'x', {writable: true});",
    )
    .expect_err("should throw");
    assert_eq!(error, "TypeError: Cannot redefine property: x");
}

#[test]
fn new_and_a_plain_call_give_an_error_the_same_properties() {
    assert_eq!(
        shown(
            "var a = new TypeError('m', {cause: 1}); var b = TypeError('m', {cause: 1});\n\
             console.log(a.message === b.message, a.cause === b.cause, a.name === b.name, Object.getPrototypeOf(a) === Object.getPrototypeOf(b));\n\
             console.log(a, b);"
        ),
        "true true true true\n[TypeError: m] { [cause]: 1 } [TypeError: m] { [cause]: 1 }"
    );
}

#[test]
fn a_literal_never_breaks_a_line_and_every_short_escape_is_used() {
    let mut realm = Realm::new();
    json::install(&mut realm);
    let text = realm.new_string("\u{8}\u{c}\n\r\t\"\\\u{1f}\u{7f}/");
    let answer = call_native(&mut realm, Native::JsonStringify, None, &[text]).expect("should answer");
    assert_eq!(
        realm.as_text(answer).expect("a string"),
        "\"\\b\\f\\n\\r\\t\\\"\\\\\\u001f\u{7f}/\""
    );
}

#[test]
fn a_gap_of_this_build_is_told_apart_from_what_a_program_did() {
    let cases = [
        (RuntimeError::Type("m".to_owned()), "uncaught exception: TypeError: m"),
        (RuntimeError::Range("m".to_owned()), "uncaught exception: RangeError: m"),
        (RuntimeError::Reference("m".to_owned()), "uncaught exception: ReferenceError: m"),
        (RuntimeError::Thrown("m".to_owned()), "uncaught exception: m"),
        (
            RuntimeError::Unsupported("m".to_owned()),
            "not implemented yet: m. See https://github.com/tamnd/katsu/milestones",
        ),
        (
            RuntimeError::NotImplemented("m".to_owned()),
            "not implemented yet: m. See https://github.com/tamnd/katsu/milestones",
        ),
        (RuntimeError::OutOfMemory, "fatal: out of memory"),
        (RuntimeError::Interrupted, "fatal: interrupted"),
    ];
    for (error, text) in cases {
        assert_eq!(Error::from_runtime(&error).to_string(), text);
    }
    assert_eq!(Error::from_compile("m", false).to_string(), "syntax error: m");
    assert!(matches!(Error::from_compile("m", true), Error::NotImplemented(_)));
}

#[test]
fn an_error_constructor_in_a_realm_without_the_prototypes_says_so() {
    let mut realm = Realm::new();
    let error = call_native(&mut realm, Native::Error(ErrorKind::Type), None, &[]).expect_err("no prototypes");
    assert_eq!(
        error.to_string(),
        "TypeError() needs the error prototypes, which this realm was built without"
    );
}

#[test]
fn a_method_read_out_and_called_names_itself_in_the_refusal() {
    let error = run(&EVERYTHING, "var f = Error.prototype.toString; f();").expect_err("should refuse");
    assert!(error.contains("Error.prototype.toString"), "{error}");
}

#[test]
fn either_zero_is_written_zero_whatever_text_came_with_it() {
    let mut realm = Realm::new();
    json::install(&mut realm);
    for (bits, shown) in [(0.0f64.to_bits(), "0"), ((-0.0f64).to_bits(), "-0")] {
        let zero = realm.new_number(bits, "another text");
        assert_eq!(to_text(&realm, zero).expect("a number has text"), "0");
        assert_eq!(realm.display(zero), shown);
        let answer = call_native(&mut realm, Native::JsonStringify, None, &[zero]).expect("should answer");
        assert_eq!(realm.as_text(answer).expect("a string"), "0");
    }
    for (number, shown) in [(f64::NAN, "NaN"), (f64::INFINITY, "Infinity"), (f64::NEG_INFINITY, "-Infinity")] {
        let value = realm.new_number(number.to_bits(), "another text");
        assert_eq!(to_text(&realm, value).expect("a number has text"), shown);
        assert_eq!(realm.display(value), shown);
    }
}

#[test]
fn a_long_chain_of_conversions_is_followed_to_its_end_and_one_that_leads_back_is_refused() {
    let mut realm = Realm::new();
    object::install(&mut realm);
    error::install(&mut realm);
    let prototype = realm.error_prototype(ErrorKind::Error).expect("installed");
    let message = realm.new_string("x");
    let first = realm.new_object_with_prototype(prototype).expect("an object");
    realm.define_property(first, "message", message, Attributes::new(true, false, true));
    let mut last = first;
    for _ in 0..1500 {
        let next = realm.new_object_with_prototype(prototype).expect("an object");
        realm.define_property(next, "name", last, Attributes::new(true, false, true));
        last = next;
    }
    assert_eq!(to_text(&realm, last).expect("a chain that ends"), "Error: x");
    realm.define_property(first, "name", last, Attributes::new(true, false, true));
    match to_text(&realm, last) {
        Err(RuntimeError::Range(text)) => assert_eq!(text, "Maximum call stack size exceeded"),
        other => panic!("unexpected {other:?}"),
    }
}
