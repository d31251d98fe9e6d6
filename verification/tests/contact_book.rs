use harvest::contacts::{BasicContact, BusinessContact, ContactBook, ContactInfo, HashMapStorage, Storage};
use harvest::order::Precedence;

fn person(name: &str, phone: &str, email: &str) -> BasicContact {
    BasicContact { name: name.to_string(), phone: phone.to_string(), email: email.to_string() }
}

fn firm(company: &str, contact: &str, phone: &str, email: &str, address: &str) -> BusinessContact {
    BusinessContact {
        company_name: company.to_string(),
        contact_person: contact.to_string(),
        phone: phone.to_string(),
        email: email.to_string(),
        address: address.to_string(),
    }
}

fn personal_book() -> ContactBook<BasicContact, HashMapStorage<BasicContact>> {
    let mut book = ContactBook::new(HashMapStorage::new());
    book.add_contact(person("John Doe", "123-456-7890", "john.doe@example.com"));
    book.add_contact(person("Jane Smith", "987-654-3210", "jane.smith@example.com"));
    book.add_contact(person("Adam West", "555-000-1111", "ADAM@bat.org"));
    book
}

fn names(list: &[&BasicContact]) -> Vec<String> {
    list.iter().map(|c| c.name.clone()).collect()
}

#[test]
fn search_finds_by_name() {
    let book = personal_book();
    let found = book.search_contact("John Doe").unwrap();
    assert_eq!(found.phone, "123-456-7890");
    assert_eq!(found.email, "john.doe@example.com");
    assert!(book.search_contact("john doe").is_none());
    assert!(book.search_contact("Nobody").is_none());
    assert_eq!(book.get_contact("Jane Smith").unwrap().phone, "987-654-3210");
    assert!(book.get_contact("").is_none());
}

#[test]
fn remove_takes_the_contact_out() {
    let mut book = personal_book();
    let gone = book.remove_contact("Jane Smith").unwrap();
    assert_eq!(gone.email, "jane.smith@example.com");
    assert!(book.search_contact("Jane Smith").is_none());
    assert!(book.remove_contact("Jane Smith").is_none());
    assert_eq!(names(&book.list_contacts(None, None)), vec!["John Doe", "Adam West"]);
}

#[test]
fn add_replaces_a_contact_with_the_same_key() {
    let mut book = personal_book();
    book.add_contact(person("John Doe", "000", "new@example.com"));
    let list = book.list_contacts(None, None);
    assert_eq!(names(&list), vec!["John Doe", "Jane Smith", "Adam West"]);
    assert_eq!(list[0].phone, "000");
    assert_eq!(book.get_contact("John Doe").unwrap().email, "new@example.com");
}

#[test]
fn listing_sorts_by_field() {
    let book = personal_book();
    assert_eq!(names(&book.list_contacts(Some("name"), None)), vec!["Adam West", "Jane Smith", "John Doe"]);
    assert_eq!(names(&book.list_contacts(Some("phone"), None)), vec!["John Doe", "Adam West", "Jane Smith"]);
    assert_eq!(names(&book.list_contacts(Some("email"), None)), vec!["Adam West", "Jane Smith", "John Doe"]);
    // A field that is not known leaves the order as it is.
    assert_eq!(names(&book.list_contacts(Some("shoe size"), None)), vec!["John Doe", "Jane Smith", "Adam West"]);
}

#[test]
fn listing_filters_by_query() {
    let book = personal_book();
    assert_eq!(names(&book.list_contacts(None, Some("JOHN"))), vec!["John Doe"]);
    assert_eq!(names(&book.list_contacts(None, Some("example.com"))), vec!["John Doe", "Jane Smith"]);
    assert_eq!(names(&book.list_contacts(Some("name"), Some("example.com"))), vec!["Jane Smith", "John Doe"]);
    assert_eq!(names(&book.list_contacts(None, Some("555"))), vec!["Adam West"]);
    assert_eq!(names(&book.list_contacts(None, Some("adam@"))), vec!["Adam West"]);
    assert!(book.list_contacts(None, Some("zzz")).is_empty());
    assert_eq!(book.list_contacts(None, Some("")).len(), 3);
}

#[test]
fn sorting_keeps_equal_records_in_order() {
    let mut book: ContactBook<BasicContact, HashMapStorage<BasicContact>> = ContactBook::new(HashMapStorage::new());
    book.add_contact(person("c", "1", "x"));
    book.add_contact(person("a", "2", "x"));
    book.add_contact(person("b", "1", "x"));
    book.add_contact(person("d", "0", "x"));
    assert_eq!(names(&book.list_contacts(Some("phone"), None)), vec!["d", "c", "b", "a"]);
    assert_eq!(names(&book.list_contacts(Some("email"), None)), vec!["c", "a", "b", "d"]);
    assert_eq!(names(&book.list_contacts(Some("name"), None)), vec!["a", "b", "c", "d"]);
}

#[test]
fn basic_contact_rules() {
    let john = person("John Doe", "123-ABC", "John@Example.com");
    let jane = person("Jane Smith", "987", "jane@example.com");
    assert_eq!(john.get_id(), "John Doe");
    assert!(john.matches_search("doe"));
    assert!(john.matches_search("DOE"));
    assert!(john.matches_search("example"));
    assert!(john.matches_search("123"));
    // The phone number is searched as it stands, for the query in lowercase.
    assert!(!john.matches_search("abc"));
    assert!(!john.matches_search("ABC"));
    assert!(!john.matches_search("smith"));
    assert_eq!(john.compare_by_field(&jane, "name"), Precedence::Greater);
    assert_eq!(jane.compare_by_field(&john, "name"), Precedence::Less);
    assert_eq!(john.compare_by_field(&john, "name"), Precedence::Equal);
    assert_eq!(john.compare_by_field(&jane, "phone"), Precedence::Less);
    assert_eq!(john.compare_by_field(&jane, "email"), Precedence::Less);
    assert_eq!(john.compare_by_field(&jane, "other"), Precedence::Equal);
    assert_eq!(person("ab", "", "").compare_by_field(&person("abc", "", ""), "name"), Precedence::Less);
    assert_eq!(person("", "", "").compare_by_field(&person("", "", ""), "name"), Precedence::Equal);
    assert_eq!(person("é", "", "").compare_by_field(&person("z", "", ""), "name"), Precedence::Greater);
    assert_eq!(john.display(), "John Doe - 123-ABC (John@Example.com)");
}

#[test]
fn business_contact_rules() {
    let acme = firm("Acme Corp", "Bob Wilson", "555-123-4567", "bob@acme.com", "123 Business St");
    let zeta = firm("Zeta Ltd", "Al Young", "111", "al@zeta.com", "9 Side Rd");
    assert_eq!(acme.get_id(), "Acme Corp");
    assert!(acme.matches_search("acme"));
    assert!(acme.matches_search("WILSON"));
    assert!(acme.matches_search("555"));
    assert!(acme.matches_search("business st"));
    assert!(!acme.matches_search("zeta"));
    assert_eq!(acme.compare_by_field(&zeta, "company"), Precedence::Less);
    assert_eq!(acme.compare_by_field(&zeta, "contact"), Precedence::Greater);
    assert_eq!(acme.compare_by_field(&zeta, "phone"), Precedence::Greater);
    assert_eq!(acme.compare_by_field(&zeta, "email"), Precedence::Greater);
    assert_eq!(acme.compare_by_field(&zeta, "address"), Precedence::Less);
    assert_eq!(acme.compare_by_field(&zeta, "name"), Precedence::Equal);
    assert_eq!(acme.display(), "Acme Corp (Bob Wilson) - 555-123-4567 - bob@acme.com");
    let mut book: ContactBook<BusinessContact, HashMapStorage<BusinessContact>> = ContactBook::new(HashMapStorage::new());
    book.add_contact(zeta);
    book.add_contact(acme);
    let listed: Vec<&str> = book.list_contacts(Some("company"), None).iter().map(|c| c.company_name.as_str()).collect();
    assert_eq!(listed, vec!["Acme Corp", "Zeta Ltd"]);
}

#[test]
fn storage_keeps_one_record_per_key() {
    let mut store: HashMapStorage<BasicContact> = HashMapStorage::new();
    assert!(store.get_all().is_empty());
    store.add(person("a", "1", "x"));
    store.add(person("b", "2", "y"));
    store.add(person("a", "3", "z"));
    assert_eq!(store.get_all().len(), 2);
    assert_eq!(store.get("a").unwrap().phone, "3");
    assert!(store.get("c").is_none());
    assert_eq!(store.remove("a").unwrap().email, "z");
    assert!(store.remove("a").is_none());
    assert_eq!(store.get_all().len(), 1);
    assert_eq!(store.get_all()[0].name, "b");
}
