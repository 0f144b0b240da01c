use book_catalog::{Book, Library, LibraryResult};

fn huck() -> Book {
    Book {
        author: "Mark Twain".to_string(),
        title: "Huckleberry Finn".to_string(),
        year: 1876,
        isbn: "012-34567-890".to_string(),
    }
}

fn sawyer() -> Book {
    Book {
        author: "Mark Twain".to_string(),
        title: "Tom Sawyer".to_string(),
        year: 1877,
        isbn: "123-45678-901".to_string(),
    }
}

fn dingleberry() -> Book {
    Book {
        author: "Dingus McDingleberry".to_string(),
        title: "Being a Dingleberry".to_string(),
        year: 2021,
        isbn: "321-65432-901".to_string(),
    }
}

#[test]
fn test_library() {
    // Initialize library test
    let mut lib = Library::new();
    let book1 = Book {
        author: "Mark Twain".to_string(),
        title: "Huckleberry Finn".to_string(),
        year: 1876,
        isbn: "012-34567-890".to_string(),
    };
    let book2 = Book {
        author: "Mark Twain".to_string(),
        title: "Tom Sawyer".to_string(),
        year: 1877,
        isbn: "123-45678-901".to_string(),
    };
    let book3 = Book {
        author: "Dingus McDingleberry".to_string(),
        title: "Being a Dingleberry".to_string(),
        year: 2021,
        isbn: "321-65432-901".to_string(),
    };
    match lib.add_book(book1) {
        Ok(LibraryResult::BookAdded) => (),
        _ => panic!("Expected BookAdded"),
    }
    match lib.add_book(book2) {
        Ok(LibraryResult::BookAdded) => (),
        _ => panic!("Expected BookAdded"),
    }
    match lib.add_book(book3) {
        Ok(LibraryResult::BookAdded) => (),
        _ => panic!("Expected BookAdded"),
    }

    // Test get_book
    match lib.get_book("012-34567-890") {
        Ok(book) => {
            assert_eq!(book.title, "Huckleberry Finn".to_string())
        }
        Err(LibraryResult::DoesNotExist) => panic!("Didn't retrieve the right book!"),
        _ => panic!("Expected a book"),
    };

    // Test get_books
    let result = lib.get_books();
    assert_eq!(result.len(), 3, "Incorrect number of books.");

    // Test search_book
    let result = lib.search_book("Mark Twain");
    assert_eq!(result.len(), 2, "Incorrect number of books.");

    // Test remove_book
    let result = lib.remove_book("012-34567-890");
    assert_eq!(result.unwrap(), "Removed".to_string());
}

#[test]
fn test_add_duplicate_reports_already_exists() {
    let mut lib = Library::new();
    assert!(matches!(lib.add_book(huck()), Ok(LibraryResult::BookAdded)));
    assert!(matches!(
        lib.add_book(huck()),
        Err(LibraryResult::AlreadyExists)
    ));
}

#[test]
fn test_duplicate_add_keeps_first_record() {
    let mut lib = Library::new();
    assert!(matches!(lib.add_book(huck()), Ok(LibraryResult::BookAdded)));
    let imposter = Book {
        author: "Someone Else".to_string(),
        title: "A Different Book".to_string(),
        year: 1999,
        isbn: "012-34567-890".to_string(),
    };
    assert!(matches!(
        lib.add_book(imposter),
        Err(LibraryResult::AlreadyExists)
    ));
    let stored = lib.get_book("012-34567-890").unwrap();
    assert_eq!(stored.title, "Huckleberry Finn");
    assert_eq!(stored.author, "Mark Twain");
    assert_eq!(stored.year, 1876);
}

#[test]
fn test_get_returns_all_fields() {
    let mut lib = Library::new();
    assert!(matches!(lib.add_book(huck()), Ok(LibraryResult::BookAdded)));
    let stored = lib.get_book("012-34567-890").unwrap();
    assert_eq!(stored.title, "Huckleberry Finn");
    assert_eq!(stored.author, "Mark Twain");
    assert_eq!(stored.year, 1876);
    assert_eq!(stored.isbn, "012-34567-890");
}

#[test]
fn test_get_on_empty_store() {
    let lib = Library::new();
    assert!(matches!(
        lib.get_book("999-00000-000"),
        Err(LibraryResult::DoesNotExist)
    ));
}

#[test]
fn test_remove_then_remove_again() {
    let mut lib = Library::new();
    assert!(matches!(lib.add_book(huck()), Ok(LibraryResult::BookAdded)));
    assert_eq!(lib.remove_book("012-34567-890").unwrap(), "Removed");
    assert_eq!(
        lib.remove_book("012-34567-890").unwrap_err(),
        "Nonexistant"
    );
}

#[test]
fn test_remove_absent_leaves_store_unchanged() {
    let mut lib = Library::new();
    assert!(matches!(lib.add_book(huck()), Ok(LibraryResult::BookAdded)));
    assert_eq!(lib.remove_book("no-such-id").unwrap_err(), "Nonexistant");
    assert_eq!(lib.get_books().len(), 1);
}

#[test]
fn test_list_empty_then_three() {
    let mut lib = Library::new();
    assert_eq!(lib.get_books().len(), 0);
    assert!(matches!(lib.add_book(huck()), Ok(LibraryResult::BookAdded)));
    assert!(matches!(
        lib.add_book(sawyer()),
        Ok(LibraryResult::BookAdded)
    ));
    assert!(matches!(
        lib.add_book(dingleberry()),
        Ok(LibraryResult::BookAdded)
    ));
    let books = lib.get_books();
    assert_eq!(books.len(), 3);
    for isbn in ["012-34567-890", "123-45678-901", "321-65432-901"] {
        assert!(books.iter().any(|b| b.isbn == isbn));
    }
}

#[test]
fn test_search_by_author_exact_set() {
    let mut lib = Library::new();
    assert!(matches!(lib.add_book(huck()), Ok(LibraryResult::BookAdded)));
    assert!(matches!(
        lib.add_book(sawyer()),
        Ok(LibraryResult::BookAdded)
    ));
    assert!(matches!(
        lib.add_book(dingleberry()),
        Ok(LibraryResult::BookAdded)
    ));
    let hits = lib.search_book("Mark Twain");
    assert_eq!(hits.len(), 2);
    assert!(hits.iter().any(|b| b.isbn == "012-34567-890"));
    assert!(hits.iter().any(|b| b.isbn == "123-45678-901"));
    assert!(!hits.iter().any(|b| b.isbn == "321-65432-901"));
}

#[test]
fn test_search_matches_substrings_not_only_whole_fields() {
    let mut lib = Library::new();
    assert!(matches!(lib.add_book(huck()), Ok(LibraryResult::BookAdded)));
    assert!(matches!(
        lib.add_book(dingleberry()),
        Ok(LibraryResult::BookAdded)
    ));
    // Inside the author field.
    let hits = lib.search_book("Twain");
    assert_eq!(hits.len(), 1);
    assert_eq!(hits[0].isbn, "012-34567-890");
    // Inside the title field, not at a word boundary.
    let hits = lib.search_book("uckleberry");
    assert_eq!(hits.len(), 1);
    assert_eq!(hits[0].isbn, "012-34567-890");
    // Case-sensitive: no hit with the wrong case.
    let hits = lib.search_book("mark twain");
    assert_eq!(hits.len(), 0);
}

#[test]
fn test_search_empty_query_returns_everything() {
    let mut lib = Library::new();
    assert_eq!(lib.search_book("").len(), 0);
    assert!(matches!(lib.add_book(huck()), Ok(LibraryResult::BookAdded)));
    assert!(matches!(
        lib.add_book(sawyer()),
        Ok(LibraryResult::BookAdded)
    ));
    assert_eq!(lib.search_book("").len(), 2);
}

#[test]
fn test_search_no_match_returns_nothing() {
    let mut lib = Library::new();
    assert!(matches!(lib.add_book(huck()), Ok(LibraryResult::BookAdded)));
    assert_eq!(lib.search_book("Moby Dick").len(), 0);
}
