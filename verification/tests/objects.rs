use lib::access::{Access, Mode};
use lib::container::Container;
use lib::error::{Error, ErrorKind};
use lib::errors;
use lib::file::{FileObject, SeekFrom};
use lib::interpreter::{Global, Local};
use lib::name::NameObject;
use lib::object::name_object;
use lib::object::operator_object::OperatorObject as OperatorName;
use lib::object::string_object::StringObject;
use lib::operator::{Operator, OperatorObject};
use lib::rand::RandomNumberGenerator;
use lib::token::{Token, TokenKind};
use lib::traits::StringReadPeeker;

#[test]
fn objects_access_and_mode() {
    assert_eq!(Access::Unlimited, Access::default());
    assert!(Access::Unlimited.is_writeable() && Access::Unlimited.is_readable());
    assert!(Access::ReadOnly.is_read_only() && Access::ReadOnly.is_readable());
    assert!(!Access::ReadOnly.is_writeable());
    assert!(Access::ExecuteOnly.is_exec_only() && Access::ExecuteOnly.is_executable());
    assert!(!Access::ExecuteOnly.is_readable());
    assert!(Access::NoAccess.has_no_access() && !Access::NoAccess.is_executable());
    assert_eq!(Mode::Executable, Mode::default());
    assert!(Mode::Literal.is_literal() && !Mode::Literal.is_executable());
}

#[test]
fn objects_names() {
    let name = NameObject::new("abc", Mode::Literal);
    assert_eq!(b"abc", name.value());
    assert_eq!(Mode::Literal, name.mode());
    assert!(name.is_str("abc"));
    assert!(!name.is_str("abd"));
    assert!(name.same_name(&NameObject::new("abc", Mode::Executable)));
    let copy = name.clone();
    assert_eq!(name.value(), copy.value());

    let other = name_object::NameObject::new("héllo".to_string(), Mode::Executable);
    assert_eq!(6, other.len());
    assert!(!other.is_empty());
    assert_eq!("héllo", other.as_str());
    assert!(name_object::NameObject::new(String::new(), Mode::Literal).is_empty());
}

#[test]
fn objects_strings() {
    let mut s = StringObject::from_string("abc".to_string());
    assert_eq!(3, s.len());
    assert!(!s.is_empty());
    assert_eq!(b'b', *s.get(1).unwrap());
    assert_eq!(ErrorKind::RangeCheck, s.get(3).unwrap_err().kind());
    *s.get_mut(0).unwrap() = b'x';
    assert_eq!(b"xbc", s.as_bytes());
    assert_eq!(ErrorKind::RangeCheck, s.get_mut(9).unwrap_err().kind());
    assert!(StringObject::from_bytes(Vec::new()).is_empty());
}

#[test]
fn objects_operators() {
    let op = OperatorObject::from(Operator::Print);
    assert_eq!(Operator::Print, op.operator());
    assert_eq!(Mode::Executable, op.mode);
    assert_eq!("print", Operator::Print.name());
    assert_eq!("cvlit", Operator::Cvlit.name());
    assert!(op.same_operator(&OperatorObject::from(Operator::Print)));
    assert!(!op.same_operator(&OperatorObject::from(Operator::Quit)));
    assert_ne!(OperatorName::Dup, OperatorName::Exch);
}

#[test]
fn objects_tokens() {
    let token = Token::new(TokenKind::Integer, "42".to_string());
    assert_eq!(TokenKind::Integer, token.kind());
    assert_eq!("42", token.value());
}

#[test]
fn objects_file_read_seek_write() {
    let mut file = FileObject::from_string("hello".to_string());
    let mut buf = [0u8; 3];
    assert_eq!(3, file.read(&mut buf));
    assert_eq!(b"hel", &buf);
    assert_eq!(3, file.position());
    assert_eq!(Some(1), file.seek(SeekFrom::Current(-2)));
    assert_eq!(2, file.read(&mut buf[..2]));
    assert_eq!(b"el", &buf[..2]);
    assert_eq!(None, file.seek(SeekFrom::Start(5)));
    assert_eq!(Some(4), file.seek(SeekFrom::End(-1)));
    assert_eq!(None, file.seek(SeekFrom::Current(-10)));
    let mut rest = [0u8; 4];
    assert_eq!(1, file.read(&mut rest));
    assert_eq!(b'o', rest[0]);
    assert_eq!(0, file.read(&mut rest));
    assert_eq!(2, file.write(b"!!"));
    assert_eq!(2, file.read(&mut rest));
    assert_eq!(b"!!", &rest[..2]);
    assert_eq!(Mode::Executable, file.mode());
}

#[test]
fn objects_string_read_peeker() {
    let mut reader = StringReadPeeker::from("abcd");
    let mut buf = [0u8; 3];
    assert_eq!(Some(3), reader.peek(&mut buf));
    assert_eq!(b"abc", &buf);
    assert_eq!(Some(3), reader.read(&mut buf));
    let mut two = [0u8; 2];
    assert_eq!(None, reader.read(&mut two));
    assert_eq!(b'd', two[0]);
    let mut one = [0u8; 1];
    assert_eq!(Some(1), reader.read(&mut one));
    assert_eq!(b"d", &one);
}

#[test]
fn objects_container() {
    let mut c: Container<&str> = Container::new();
    assert_eq!(0, c.insert("a"));
    assert_eq!(1, c.insert("b"));
    assert_eq!(Some(&"b"), c.get(1));
    assert_eq!(None, c.get(2));
    *c.get_mut(0).unwrap() = "z";
    assert_eq!(Some(&"z"), c.get(0));
    assert_eq!(Some("z"), c.remove(0));
    assert_eq!(None, c.get(0));
    assert_eq!(None, c.remove(0));
    assert!(c.get_mut(0).is_none());
    let d: Container<i32> = Container::default();
    assert_eq!(None, d.get(0));
}

#[test]
fn objects_random_numbers() {
    let mut rng = RandomNumberGenerator::new();
    assert_eq!(0, rng.seed());
    rng.set_seed(42);
    assert_eq!(42, rng.seed());
    let peeked = rng.peek_next();
    let first = rng.rand();
    assert_eq!(peeked, first);
    assert_eq!(1103515245i32.wrapping_mul(42 + 12345), first);
    let second = rng.rand();
    assert_eq!(1103515245i32.wrapping_mul(first.wrapping_add(12345)), second);
    assert_eq!(42, rng.seed());
}

#[test]
fn objects_errors() {
    let e = Error::new(ErrorKind::TypeCheck, "expected int");
    assert_eq!(ErrorKind::TypeCheck, e.kind());
    assert_eq!("expected int", e.message());
    assert_eq!("", Error::from(ErrorKind::VmError).message());
    assert_eq!("undefinedresult", ErrorKind::UndefinedResult.name());
    assert_eq!("stackunderflow", ErrorKind::StackUnderflow.name());
    assert_eq!("rangecheck: bad", Error::new(ErrorKind::RangeCheck, "bad").to_string());
    assert_eq!("typecheck", Error::from(ErrorKind::TypeCheck).to_string());

    let eof = errors::Error::eof();
    assert_eq!(errors::ErrorKind::UnexpectedEof, eof.kind());
    let cause = errors::Error::with_cause(errors::ErrorKind::Syntax, "bad".to_string());
    assert_eq!(errors::ErrorKind::Syntax, cause.kind());
    assert_eq!(errors::ErrorKind::Read, errors::Error::new(errors::ErrorKind::Read).kind());
}

#[test]
fn objects_memory_markers() {
    let _global = Global;
    let _local = Local;
}

#[test]
fn objects_container_addresses_never_reused() {
    let mut c: Container<i32> = Container::default();
    let a = c.insert(10);
    let b = c.insert(20);
    assert_eq!((0, 1), (a, b));
    assert_eq!(Some(20), c.remove(b));
    assert_eq!(None, c.remove(b));
    // later inserts get new addresses
    assert_eq!(2, c.insert(30));
    *c.get_mut(2).unwrap() = 31;
    // the value at `a` is kept through calls at other addresses
    assert_eq!(Some(&10), c.get(a));
    assert_eq!(Some(&31), c.get(2));
    assert_eq!(None, c.get(3));
    assert_eq!(3, c.len());
}

#[test]
fn objects_random_seed_kept_by_draws() {
    let mut rng = RandomNumberGenerator::new();
    rng.set_seed(7);
    let mut n = 7i32;
    for _ in 0..50 {
        n = 1103515245i32.wrapping_mul(n.wrapping_add(12345));
        assert_eq!(n, rng.rand());
        assert_eq!(7, rng.seed());
    }
}
