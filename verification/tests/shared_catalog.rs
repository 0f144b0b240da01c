use book_catalog::{Book, LibraryResult, SharedLibrary};

fn huck() -> Book {
    Book {
        author: "Mark Twain".to_string(),
        title: "Huckleberry Finn".to_string(),
        year: 1876,
        isbn: "012-34567-890".to_string(),
    }
}

fn sawyer() -> Book {
    Book {
        author: "Mark Twain".to_string(),
        title: "Tom Sawyer".to_string(),
        year: 1877,
        isbn: "123-45678-901".to_string(),
    }
}

#[test]
fn test_shared_add_get_roundtrip() {
    let lib = SharedLibrary::new();
    assert!(matches!(lib.add_book(huck()), Ok(LibraryResult::BookAdded)));
    let stored = lib.get_book("012-34567-890").unwrap();
    assert_eq!(stored.title, "Huckleberry Finn");
    assert_eq!(stored.author, "Mark Twain");
    assert_eq!(stored.year, 1876);
    assert_eq!(stored.isbn, "012-34567-890");
}

#[test]
fn test_shared_add_duplicate_refused() {
    let lib = SharedLibrary::new();
    assert!(matches!(lib.add_book(huck()), Ok(LibraryResult::BookAdded)));
    assert!(matches!(
        lib.add_book(huck()),
        Err(LibraryResult::AlreadyExists)
    ));
    assert_eq!(lib.get_books().len(), 1);
}

#[test]
fn test_shared_get_absent() {
    let lib = SharedLibrary::new();
    assert!(matches!(
        lib.get_book("999-00000-000"),
        Err(LibraryResult::DoesNotExist)
    ));
}

#[test]
fn test_shared_remove_twice() {
    let lib = SharedLibrary::new();
    assert!(matches!(lib.add_book(huck()), Ok(LibraryResult::BookAdded)));
    assert_eq!(lib.remove_book("012-34567-890").unwrap(), "Removed");
    assert_eq!(
        lib.remove_book("012-34567-890").unwrap_err(),
        "Nonexistant"
    );
}

#[test]
fn test_shared_list_and_search() {
    let lib = SharedLibrary::new();
    assert_eq!(lib.get_books().len(), 0);
    assert!(matches!(lib.add_book(huck()), Ok(LibraryResult::BookAdded)));
    assert!(matches!(
        lib.add_book(sawyer()),
        Ok(LibraryResult::BookAdded)
    ));
    let all = lib.get_books();
    assert_eq!(all.len(), 2);
    let hits = lib.search_book("Sawyer");
    assert_eq!(hits.len(), 1);
    assert_eq!(hits[0].isbn, "123-45678-901");
}
