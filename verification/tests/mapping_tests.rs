use sin::capability::{Bindable, FromRow, ToRow};
use sin::errors::{BuildError, MappingError};
use sin::mapping::{deserialize_record, open_row, require_field, serialize_record};
use sin::model::{extract_fields, FieldDescriptor, RecordDef};
use sin::row::{RowMap, RowValue};
use sin::directive::{parse_directive, Token};
use sin::metadata::emit_table_metadata;
use sin::statement::{bind_field, bind_record, Statement};

fn descriptor(name: &str, declared_type: &str) -> FieldDescriptor {
    FieldDescriptor { name: name.to_string(), declared_type: declared_type.to_string() }
}

/// A record with fields `id: Integer`, `name: Text`, mapped through the
/// crate's generated-routine equivalents.
#[derive(Clone, PartialEq)]
struct User {
    id: i64,
    name: String,
}

impl User {
    fn descriptors() -> Vec<FieldDescriptor> {
        vec![descriptor("id", "Integer"), descriptor("name", "Text")]
    }

    fn to_row(self) -> RowValue {
        serialize_record(&Self::descriptors(), vec![self.id.to_row(), self.name.to_row()])
    }

    fn from_row(v: &RowValue) -> Result<User, MappingError> {
        let located = deserialize_record(&Self::descriptors(), v)?;
        Ok(User { id: i64::from_row(located[0])?, name: String::from_row(located[1])? })
    }

    fn bind_insert_statement(&self, s: &mut Statement) {
        bind_field(s, "id".to_string(), &self.id);
        bind_field(s, "name".to_string(), &self.name);
    }
}

/// A record holding another record, to exercise recursive composition.
#[derive(Clone, PartialEq)]
struct Account {
    owner: User,
    active: bool,
}

impl Account {
    fn descriptors() -> Vec<FieldDescriptor> {
        vec![descriptor("owner", "User"), descriptor("active", "Boolean")]
    }

    fn to_row(self) -> RowValue {
        serialize_record(&Self::descriptors(), vec![self.owner.to_row(), self.active.to_row()])
    }

    fn from_row(v: &RowValue) -> Result<Account, MappingError> {
        let located = deserialize_record(&Self::descriptors(), v)?;
        Ok(Account { owner: User::from_row(located[0])?, active: bool::from_row(located[1])? })
    }
}

#[test]
fn round_trip_user() {
    let v = User { id: 1, name: "bob".to_string() };
    let back = User::from_row(&v.clone().to_row());
    assert!(back == Ok(v));
}

#[test]
fn round_trip_nested_record() {
    let v = Account { owner: User { id: 7, name: "eve".to_string() }, active: true };
    let back = Account::from_row(&v.clone().to_row());
    assert!(back == Ok(v));
}

#[test]
fn round_trip_scalars() {
    assert!(i64::from_row(&5i64.to_row()) == Ok(5));
    assert!(String::from_row(&"x".to_string().to_row()) == Ok("x".to_string()));
    assert!(bool::from_row(&false.to_row()) == Ok(false));
}

#[test]
fn serialized_row_holds_each_field_by_name() {
    let v = User { id: 1, name: "bob".to_string() };
    let row = v.to_row();
    let m = open_row(&row).unwrap();
    assert!(m.len() == 2);
    assert!(m.get(&"id".to_string()) == Some(&RowValue::Integer(1)));
    assert!(m.get(&"name".to_string()) == Some(&RowValue::Text("bob".to_string())));
    assert!(m.get(&"other".to_string()) == None);
}

#[test]
fn missing_field_reported_by_name() {
    let mut m = RowMap::new();
    m.insert("name".to_string(), RowValue::Text("bob".to_string()));
    let r = User::from_row(&RowValue::Row(m));
    assert!(r == Err(MappingError::FieldAbsent("id".to_string())));
}

#[test]
fn first_missing_field_in_declaration_order_wins() {
    let m = RowMap::new();
    let r = User::from_row(&RowValue::Row(m));
    assert!(r == Err(MappingError::FieldAbsent("id".to_string())));
}

#[test]
fn non_row_variant_rejected() {
    let r = User::from_row(&RowValue::Integer(3));
    assert!(r == Err(MappingError::UnexpectedVariant));
}

#[test]
fn wrong_field_shape_is_type_mismatch() {
    let mut m = RowMap::new();
    m.insert("id".to_string(), RowValue::Text("oops".to_string()));
    m.insert("name".to_string(), RowValue::Text("bob".to_string()));
    let r = User::from_row(&RowValue::Row(m));
    assert!(matches!(r, Err(MappingError::TypeMismatch(_))));
}

#[test]
fn require_field_finds_present_value() {
    let mut m = RowMap::new();
    m.insert("id".to_string(), RowValue::Integer(9));
    assert!(require_field(&m, &"id".to_string()) == Ok(&RowValue::Integer(9)));
    assert!(
        require_field(&m, &"gone".to_string())
            == Err(MappingError::FieldAbsent("gone".to_string()))
    );
}

#[test]
fn empty_record_serializes_to_empty_row() {
    let row = serialize_record(&Vec::new(), Vec::new());
    let m = open_row(&row).unwrap();
    assert!(m.len() == 0);
}

#[test]
fn extract_named_fields() {
    let def = RecordDef::NamedRecord(User::descriptors());
    let fields = extract_fields(def).unwrap();
    assert!(fields == User::descriptors());
}

#[test]
fn extract_rejects_positional_record() {
    let def = RecordDef::PositionalRecord(vec!["Integer".to_string()]);
    let r = extract_fields(def);
    assert!(r == Err(BuildError::UnsupportedShape));
}

#[test]
fn extract_rejects_unit_record() {
    let r = extract_fields(RecordDef::UnitRecord);
    assert!(r == Err(BuildError::UnsupportedShape));
}

#[test]
fn extract_rejects_sum_type() {
    let def = RecordDef::SumType(vec!["A".to_string(), "B".to_string()]);
    let r = extract_fields(def);
    assert!(r == Err(BuildError::UnsupportedShape));
}

#[test]
fn bind_issues_one_bind_per_field_in_order() {
    let v = User { id: 1, name: "bob".to_string() };
    let mut s = Statement::new();
    v.bind_insert_statement(&mut s);
    assert!(s.len() == 2);
    assert!(s.bind_at(0) == &("id".to_string(), RowValue::Integer(1)));
    assert!(s.bind_at(1) == &("name".to_string(), RowValue::Text("bob".to_string())));
}

#[test]
fn bind_record_uses_field_names_in_order() {
    let mut s = Statement::new();
    bind_record(
        &User::descriptors(),
        vec![RowValue::Integer(4), RowValue::Text("ann".to_string())],
        &mut s,
    );
    assert!(s.len() == 2);
    assert!(s.bind_at(0) == &("id".to_string(), RowValue::Integer(4)));
    assert!(s.bind_at(1) == &("name".to_string(), RowValue::Text("ann".to_string())));
}

#[test]
fn bindable_scalars_convert_to_their_variants() {
    let mut s = Statement::new();
    bind_field(&mut s, "a".to_string(), &3i64);
    bind_field(&mut s, "b".to_string(), &"t".to_string());
    bind_field(&mut s, "c".to_string(), &true);
    assert!(s.bind_at(0).1 == RowValue::Integer(3));
    assert!(s.bind_at(1).1 == RowValue::Text("t".to_string()));
    assert!(s.bind_at(2).1 == RowValue::Boolean(true));
}

#[test]
fn end_to_end_example() {
    // `table = "users", keyspace = "ks1", partition_key = [id]`
    let toks = vec![
        Token::Ident("table".to_string()),
        Token::Equals,
        Token::Literal("users".to_string()),
        Token::Comma,
        Token::Ident("keyspace".to_string()),
        Token::Equals,
        Token::Literal("ks1".to_string()),
        Token::Comma,
        Token::Ident("partition_key".to_string()),
        Token::Equals,
        Token::OpenBracket,
        Token::Ident("id".to_string()),
        Token::CloseBracket,
    ];
    let d = parse_directive(&toks).unwrap();
    let meta = emit_table_metadata(&d).unwrap();
    assert!(meta.table_name().as_str() == "users");
    assert!(meta.keyspace().as_str() == "ks1");

    let v = User { id: 1, name: "bob".to_string() };
    let row = v.clone().to_row();
    let m = open_row(&row).unwrap();
    assert!(m.len() == 2);
    assert!(m.get(&"id".to_string()) == Some(&RowValue::Integer(1)));
    assert!(m.get(&"name".to_string()) == Some(&RowValue::Text("bob".to_string())));

    let mut s = Statement::new();
    v.bind_insert_statement(&mut s);
    assert!(s.len() == 2);
    assert!(s.bind_at(0).0.as_str() == "id");
    assert!(s.bind_at(1).0.as_str() == "name");
}
