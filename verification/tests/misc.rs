use bookreview::config::{value_or, AppConfig};
use bookreview::dates::parse_year;
use bookreview::models::clone_text;
use bookreview::object_id::ObjectId;
use bookreview::routes::reviews::{clamp_score, votes_of};
use bookreview::routes::{authors, books, reviews, sales};
use bookreview::routing::{table, Method, Route};
use bookreview::static_files::{get_static_routes, get_uploads_dir, should_serve_static};
use bookreview::upload::{
    detect_image_type, get_upload_routes, health, is_allowed_extension, upload_file_name,
};

fn shape(routes: &[Route]) -> Vec<(Method, &'static str, &'static str)> {
    routes.iter().map(|r| (r.method, r.path, r.handler)).collect()
}

#[test]
fn object_id_in_hex() {
    let id = ObjectId::from_bytes([0x00, 0x01, 0x0a, 0x10, 0x7f, 0x80, 0x9a, 0xab, 0xcd, 0xef, 0xfe, 0xff]);
    assert_eq!(id.to_hex(), "00010a107f809aabcdeffeff");
    assert_eq!(ObjectId::parse_str("00010a107f809aabcdeffeff"), Some(id));
    assert_eq!(ObjectId::parse_str("00010A107F809AABCDEFFEFF"), Some(id));
    assert_eq!(ObjectId::parse_str(&id.to_hex()).unwrap().bytes, id.bytes);
}

#[test]
fn text_that_is_no_identifier() {
    for bad in [
        "",
        "0",
        "00010a107f809aabcdeffef",
        "00010a107f809aabcdeffeff0",
        "00010a107f809aabcdeffeff00",
        "00010a107f809aabcdeffefg",
        "00010a107f809aabcdeffe f",
        "ü0010a107f809aabcdeffef",
        "not an id",
    ] {
        assert_eq!(ObjectId::parse_str(bad), None, "{:?}", bad);
    }
}

#[test]
fn identifiers_compare_by_their_bytes() {
    let a = ObjectId::from_bytes([1; 12]);
    let b = ObjectId::from_bytes([1; 12]);
    let mut other = [1u8; 12];
    other[11] = 2;
    let c = ObjectId::from_bytes(other);
    assert!(a == b);
    assert!(a != c);
    assert_eq!(a.to_vec(), vec![1u8; 12]);
    assert_eq!(ObjectId::from_slice(&other), Some(c));
    assert_eq!(ObjectId::from_slice(&other[..11]), None);
    assert_eq!(ObjectId::from_slice(&[0u8; 13]), None);
}

#[test]
fn year_of_a_publication_date() {
    let year = |s: &str| parse_year(&s.chars().collect());
    assert_eq!(year("2020-05-01"), Some(2020));
    assert_eq!(year("2020"), Some(2020));
    assert_eq!(year("0044-03-15"), Some(44));
    assert_eq!(year("0-"), Some(0));
    assert_eq!(year("2147483647-01-01"), Some(2147483647));
    assert_eq!(year("2147483648-01-01"), None);
    assert_eq!(year("99999999999999999999"), None);
    assert_eq!(year(""), None);
    assert_eq!(year("-2020"), None);
    assert_eq!(year("20a0-01-01"), None);
    assert_eq!(year("٢٠٢٠-01-01"), None);
    assert_eq!(year("2020/05/01"), None);
}

#[test]
fn scores_are_brought_into_range() {
    assert_eq!(clamp_score(i32::MIN), 1);
    assert_eq!(clamp_score(0), 1);
    assert_eq!(clamp_score(1), 1);
    assert_eq!(clamp_score(3), 3);
    assert_eq!(clamp_score(5), 5);
    assert_eq!(clamp_score(6), 5);
    assert_eq!(clamp_score(i32::MAX), 5);
    assert_eq!(votes_of(None), 0);
    assert_eq!(votes_of(Some(-4)), 0);
    assert_eq!(votes_of(Some(0)), 0);
    assert_eq!(votes_of(Some(9)), 9);
}

#[test]
fn settings_fall_back_where_none_is_given() {
    let config = AppConfig::from_values(None, None, None, None, None, None);
    assert_eq!(config.mongo_uri, "mongodb://localhost:27017");
    assert_eq!(config.db_name, "bookreview_dev");
    assert_eq!(config.cache_url, None);
    assert_eq!(config.search_url, None);
    assert_eq!(config.static_dir, "./static");
    assert!(config.serve_static_from_app);
}

#[test]
fn settings_take_what_is_given() {
    let config = AppConfig::from_values(
        Some("mongodb://db:1".to_string()),
        Some("books".to_string()),
        Some("redis://cache".to_string()),
        Some("http://search".to_string()),
        Some("/srv/static".to_string()),
        Some("proxy".to_string()),
    );
    assert_eq!(config.mongo_uri, "mongodb://db:1");
    assert_eq!(config.db_name, "books");
    assert_eq!(config.cache_url.as_deref(), Some("redis://cache"));
    assert_eq!(config.search_url.as_deref(), Some("http://search"));
    assert_eq!(config.static_dir, "/srv/static");
    assert!(!config.serve_static_from_app);
    let app = AppConfig::from_values(None, None, None, None, None, Some("app".to_string()));
    assert!(app.serve_static_from_app);
    assert_eq!(value_or(None, "x"), "x");
    assert_eq!(value_or(Some("y".to_string()), "x"), "y");
}

#[test]
fn static_files_are_served_unless_switched_off() {
    assert!(should_serve_static(None));
    assert!(should_serve_static(Some("true".to_string())));
    assert!(should_serve_static(Some("no".to_string())));
    assert!(should_serve_static(Some("FALSE".to_string())));
    assert!(!should_serve_static(Some("false".to_string())));
    assert_eq!(get_uploads_dir(None), "uploads");
    assert_eq!(get_uploads_dir(Some("/data".to_string())), "/data");
}

#[test]
fn images_are_known_by_their_first_bytes() {
    assert_eq!(detect_image_type(&[0xff, 0xd8, 0xff, 0xe0, 0, 0, 0, 0]), Some("jpg"));
    assert_eq!(detect_image_type(&[0x89, 0x50, 0x4e, 0x47, 0x0d, 0x0a, 0x1a, 0x0a]), Some("png"));
    assert_eq!(detect_image_type(b"GIF87a\0\0"), Some("gif"));
    assert_eq!(detect_image_type(b"GIF89a\0\0"), Some("gif"));
    assert_eq!(detect_image_type(b"GIF88a\0\0"), None);
    assert_eq!(detect_image_type(b"RIFF\0\0\0\0WEBPV"), Some("webp"));
    assert_eq!(detect_image_type(b"RIFF\0\0\0\0WEBP"), None);
    assert_eq!(detect_image_type(b"RIFF\0\0\0\0WAVEfmt "), None);
    assert_eq!(detect_image_type(&[0xff, 0xd8, 0xff]), None);
    assert_eq!(detect_image_type(&[0xff, 0xd8, 0xff, 0, 0, 0, 0]), None);
    assert_eq!(detect_image_type(&[0x89, 0x50, 0x4e, 0x47, 0x0d, 0x0a, 0x1a, 0x0b]), None);
    assert_eq!(detect_image_type(&[]), None);
    assert_eq!(detect_image_type(b"plain text file"), None);
}

#[test]
fn image_extensions_are_taken_in_any_case() {
    for ext in ["jpg", "JPG", "jpeg", "Png", "gif", "WebP"] {
        assert!(is_allowed_extension(ext), "{}", ext);
    }
    for ext in ["", "bmp", "jp", "jpgg", ".jpg", "svg"] {
        assert!(!is_allowed_extension(ext), "{}", ext);
    }
    assert_eq!(upload_file_name("book_cover", "1234", "png"), "book_cover_1234.png");
    assert_eq!(health(), "ok");
}

#[test]
fn route_tables_list_method_path_and_handler() {
    assert_eq!(
        shape(&authors::routes()),
        vec![
            (Method::Get, "/?<q>", "index"),
            (Method::Get, "/create", "create_page"),
            (Method::Post, "/create", "create"),
            (Method::Post, "/delete/<id>", "delete_author"),
            (Method::Get, "/edit/<id>", "edit"),
            (Method::Post, "/update/<id>", "update"),
            (Method::Get, "/read/<id>", "read"),
        ]
    );
    let collection = vec![
        (Method::Get, "/?<q>", "index"),
        (Method::Get, "/create", "create_page"),
        (Method::Post, "/create", "create"),
        (Method::Get, "/edit/<id>", "edit"),
        (Method::Post, "/update/<id>", "update"),
        (Method::Post, "/delete/<id>", "delete"),
        (Method::Get, "/read/<id>", "read"),
    ];
    assert_eq!(shape(&books::routes()), collection);
    assert_eq!(shape(&reviews::routes()), collection);
    let mut with_filters = collection.clone();
    with_filters[0].1 = "/?<q_book>&<q_year>";
    assert_eq!(shape(&sales::routes()), with_filters);
    assert_eq!(shape(&table("/?<q>", "delete")), collection);
    assert_eq!(shape(&get_static_routes()), vec![(Method::Get, "/static/<file..>", "serve_static")]);
    assert_eq!(shape(&get_upload_routes()), vec![(Method::Post, "/", "upload_file")]);
}

#[test]
fn optional_text_is_copied() {
    assert_eq!(clone_text(&Some("x".to_string())), Some("x".to_string()));
    assert_eq!(clone_text(&None), None);
}
