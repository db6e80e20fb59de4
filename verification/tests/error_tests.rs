use candy::web::error::{ErrorCode, RouteError};
use candy::utils::find_static_path;

#[test]
fn test_error_code_display() {
    assert!(ErrorCode::Normal.to_string().is_empty());
    assert!(ErrorCode::InternalError.to_string().contains("Internal Server Error"));
    assert!(ErrorCode::NotFound.to_string().contains("Resource Not Found"));
    assert!(ErrorCode::BadRequest.to_string().contains("Bad Request"));
}

#[test]
fn test_error_code_from_route_error() {
    let err = RouteError::RouteNotFound;
    let (status, _) = err.into_response();
    assert_eq!(status, 404);

    let err = RouteError::InternalError;
    let (status, _) = err.into_response();
    assert_eq!(status, 404);

    let err = RouteError::BadRequest;
    let (status, _) = err.into_response();
    assert_eq!(status, 404);
}

#[test]
fn error_pages_exact() {
    assert_eq!(ErrorCode::NotFound.to_string(), "Resource Not Found\ncandy v0.1.0\nPowered by RUA\n");
    assert_eq!(ErrorCode::NotFound.code(), 404);
    assert_eq!(ErrorCode::Normal.code(), 200);
    let (status, page) = RouteError::Any("boom".to_string()).into_response();
    assert_eq!(status, 500);
    assert_eq!(page, "Internal Server Error\ncandy v0.1.0\nPowered by RUA\n");
    assert_eq!(RouteError::Any("boom".to_string()).to_string(), "boom");
    assert_eq!(RouteError::RouteNotFound.to_string(), "route not found");
}

#[test]
fn static_path_keeps_the_location_slash() {
    assert_eq!(find_static_path("/assets/css/a.css", "/assets/"), Some("/css/a.css"));
    assert_eq!(find_static_path("/assets/", "/assets/"), Some("/"));
    assert_eq!(find_static_path("/other/a.css", "/assets/"), None);
    assert_eq!(find_static_path("/as", "/assets/"), None);
}
