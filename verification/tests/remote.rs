use awabancha::remote::{RemoteAuth, RemoteInfo};

#[test]
fn test_remote_info_creation() {
    let info = RemoteInfo {
        name: "origin".to_string(),
        url: "https://github.com/user/repo.git".to_string(),
        push_url: None,
    };

    assert_eq!(info.name, "origin");
    assert_eq!(info.url, "https://github.com/user/repo.git");
    assert!(info.push_url.is_none());
}

#[test]
fn test_remote_info_with_push_url() {
    let info = RemoteInfo {
        name: "origin".to_string(),
        url: "git@github.com:user/repo.git".to_string(),
        push_url: Some("git@github.com:user/repo.git".to_string()),
    };

    assert_eq!(info.name, "origin");
    assert!(info.push_url.is_some());
}

#[test]
fn test_remote_info_clone() {
    let info = RemoteInfo {
        name: "upstream".to_string(),
        url: "https://github.com/original/repo.git".to_string(),
        push_url: Some("https://github.com/fork/repo.git".to_string()),
    };

    let cloned = info.clone();
    assert_eq!(info.name, cloned.name);
    assert_eq!(info.url, cloned.url);
    assert_eq!(info.push_url, cloned.push_url);
}

#[test]
fn test_remote_auth_creation() {
    let auth = RemoteAuth {
        username: "testuser".to_string(),
        password: "testpassword".to_string(),
    };

    assert_eq!(auth.username, "testuser");
    assert_eq!(auth.password, "testpassword");
}
