use bastion::http::Method;
use bastion::router::RadixTrie;

fn web_methods(m: Vec<Method>) -> Vec<Method> {
    m
}

fn pair(a: &str, b: &str) -> (String, String) {
    (a.to_string(), b.to_string())
}

#[test]
fn test_node_compression() {
    let mut trie = RadixTrie::new();
    trie.insert("/api", vec![], "api", None, None);
    trie.insert("/app", vec![], "app", None, None);

    let m1 = trie.lookup(&Method::GET, "/api").unwrap();
    assert_eq!(*m1.value, "api");

    let m2 = trie.lookup(&Method::GET, "/app").unwrap();
    assert_eq!(*m2.value, "app");

    // The root should have one child "/ap" with 2 children "i" and "p"
    let root_children = &trie.root().children;
    assert_eq!(root_children.len(), 1);
    assert_eq!(root_children[0].prefix, "/ap");
    assert_eq!(root_children[0].children.len(), 2);
}

#[test]
fn test_exact_match() {
    let mut trie = RadixTrie::new();
    trie.insert("/api/users", web_methods(vec![Method::GET]), "users_get", None, None);
    trie.insert("/api/users", web_methods(vec![Method::POST]), "users_post", None, None);

    let match1 = trie.lookup(&Method::GET, "/api/users").unwrap();
    assert_eq!(*match1.value, "users_get");

    let match2 = trie.lookup(&Method::POST, "/api/users").unwrap();
    assert_eq!(*match2.value, "users_post");
}

#[test]
fn test_no_match_returns_none() {
    let mut trie = RadixTrie::new();
    trie.insert("/api/users", web_methods(vec![Method::GET]), "users_get", None, None);

    assert!(trie.lookup(&Method::PUT, "/api/users").is_none());
    assert!(trie.lookup(&Method::GET, "/api/uses").is_none());
}

#[test]
fn test_prefix_match() {
    let mut trie = RadixTrie::new();
    trie.insert("/api/", vec![], "api_base", None, None);
    trie.insert("/api/v1/", vec![], "v1_base", None, None);

    assert_eq!(*trie.lookup(&Method::GET, "/api/").unwrap().value, "api_base");
    assert_eq!(*trie.lookup(&Method::GET, "/api/v1/").unwrap().value, "v1_base");
    assert!(trie.lookup(&Method::GET, "/api/v1/users").is_none());
}

#[test]
fn test_param_extraction() {
    let mut trie = RadixTrie::new();
    trie.insert("/users/:id", vec![], "user_id", None, None);
    trie.insert("/users/:id/posts/:post_id", vec![], "user_post", None, None);

    let m1 = trie.lookup(&Method::GET, "/users/123").unwrap();
    assert_eq!(*m1.value, "user_id");
    assert_eq!(m1.params.len(), 1);
    assert_eq!(*m1.params.get(0), pair("id", "123"));

    let m2 = trie.lookup(&Method::GET, "/users/123/posts/456").unwrap();
    assert_eq!(*m2.value, "user_post");
    assert_eq!(m2.params.len(), 2);
    assert_eq!(*m2.params.get(0), pair("id", "123"));
    assert_eq!(*m2.params.get(1), pair("post_id", "456"));
}

#[test]
fn test_wildcard() {
    let mut trie = RadixTrie::new();
    trie.insert("/static/*filepath", vec![], "static", None, None);

    let m = trie.lookup(&Method::GET, "/static/css/main.css").unwrap();
    assert_eq!(*m.value, "static");
    assert_eq!(m.params.len(), 1);
    assert_eq!(*m.params.get(0), pair("filepath", "css/main.css"));
}

#[test]
fn test_priority_exact_over_param() {
    let mut trie = RadixTrie::new();
    trie.insert("/users/me", vec![], "me", None, None);
    trie.insert("/users/:id", vec![], "id", None, None);
    trie.insert("/*all", vec![], "catchall", None, None);

    assert_eq!(*trie.lookup(&Method::GET, "/users/me").unwrap().value, "me");
    assert_eq!(*trie.lookup(&Method::GET, "/users/123").unwrap().value, "id");
    assert_eq!(*trie.lookup(&Method::GET, "/about").unwrap().value, "catchall");
}

#[test]
fn test_strip_prefix() {
    let mut trie = RadixTrie::new();
    trie.insert("/api/v1/users", vec![], "v1_users", Some("/api/v1".to_string()), Some("/v2".to_string()));

    let m = trie.lookup(&Method::GET, "/api/v1/users").unwrap();
    assert_eq!(*m.value, "v1_users");
    assert_eq!(m.rewritten_path.unwrap(), "/v2/users");
}

#[test]
fn test_method_filtering() {
    let mut trie = RadixTrie::new();
    trie.insert("/submit", web_methods(vec![Method::POST]), "submit_post", None, None);
    trie.insert("/submit", web_methods(vec![Method::PUT]), "submit_put", None, None);

    assert_eq!(*trie.lookup(&Method::POST, "/submit").unwrap().value, "submit_post");
    assert_eq!(*trie.lookup(&Method::PUT, "/submit").unwrap().value, "submit_put");
    assert!(trie.lookup(&Method::GET, "/submit").is_none());
}

#[test]
fn test_empty_methods_allows_all() {
    let mut trie = RadixTrie::new();
    trie.insert("/public", vec![], "public_all", None, None);

    assert_eq!(*trie.lookup(&Method::GET, "/public").unwrap().value, "public_all");
    assert_eq!(*trie.lookup(&Method::OPTIONS, "/public").unwrap().value, "public_all");
}

#[test]
fn test_multiple_params_same_prefix() {
    let mut trie = RadixTrie::new();
    trie.insert("/posts/:id/comments", vec![], "comments", None, None);
    trie.insert("/posts/:id/likes", vec![], "likes", None, None);

    assert_eq!(*trie.lookup(&Method::GET, "/posts/1/comments").unwrap().value, "comments");
    assert_eq!(*trie.lookup(&Method::GET, "/posts/1/likes").unwrap().value, "likes");
}

#[test]
fn test_deep_compression() {
    let mut trie = RadixTrie::new();
    trie.insert("/a/b/c/d/e", vec![], "abcde", None, None);
    trie.insert("/a/b/c/d/f", vec![], "abcdf", None, None);
    trie.insert("/a/b/x/y/z", vec![], "abxyz", None, None);

    assert_eq!(*trie.lookup(&Method::GET, "/a/b/c/d/e").unwrap().value, "abcde");
    assert_eq!(*trie.lookup(&Method::GET, "/a/b/c/d/f").unwrap().value, "abcdf");
    assert_eq!(*trie.lookup(&Method::GET, "/a/b/x/y/z").unwrap().value, "abxyz");
}

#[test]
fn test_param_with_slash() {
    let mut trie = RadixTrie::new();
    trie.insert("/items/:id", vec![], "item", None, None);

    assert!(trie.lookup(&Method::GET, "/items/123/456").is_none());
    assert_eq!(*trie.lookup(&Method::GET, "/items/123").unwrap().value, "item");
}

#[test]
fn test_catchall_priority() {
    let mut trie = RadixTrie::new();
    trie.insert("/files/*all", vec![], "catchall", None, None);
    trie.insert("/files/specific", vec![], "specific", None, None);

    assert_eq!(*trie.lookup(&Method::GET, "/files/specific").unwrap().value, "specific");
    assert_eq!(*trie.lookup(&Method::GET, "/files/other/path").unwrap().value, "catchall");
}

#[test]
fn test_overlapping_params() {
    let mut trie = RadixTrie::new();
    trie.insert("/:resource/list", vec![], "resource_list", None, None);
    trie.insert("/users/:action", vec![], "users_action", None, None);

    let m1 = trie.lookup(&Method::GET, "/users/list").unwrap();
    assert_eq!(*m1.value, "users_action");
}

#[test]
fn test_strip_prefix_without_add() {
    let mut trie = RadixTrie::new();
    trie.insert("/v1/api/data", vec![], "data", Some("/v1/api".to_string()), None);

    let m = trie.lookup(&Method::GET, "/v1/api/data").unwrap();
    assert_eq!(m.rewritten_path.unwrap(), "/data");
}

#[test]
fn test_add_prefix_without_strip() {
    let mut trie = RadixTrie::new();
    trie.insert("/data", vec![], "data", None, Some("/v2".to_string()));

    let m = trie.lookup(&Method::GET, "/data").unwrap();
    assert_eq!(m.rewritten_path.unwrap(), "/v2/data");
}

#[test]
fn test_rewrite_complex_path() {
    let mut trie = RadixTrie::new();
    trie.insert("/old/path/resource", vec![], "res", Some("/old/path".to_string()), Some("/new".to_string()));

    let m = trie.lookup(&Method::GET, "/old/path/resource").unwrap();
    assert_eq!(m.rewritten_path.unwrap(), "/new/resource");
}

#[test]
fn test_multiple_methods_same_path() {
    let mut trie = RadixTrie::new();
    trie.insert("/auth", web_methods(vec![Method::OPTIONS, Method::POST]), "auth", None, None);

    assert_eq!(*trie.lookup(&Method::OPTIONS, "/auth").unwrap().value, "auth");
    assert_eq!(*trie.lookup(&Method::POST, "/auth").unwrap().value, "auth");
    assert!(trie.lookup(&Method::GET, "/auth").is_none());
}

#[test]
fn test_root_path() {
    let mut trie = RadixTrie::new();
    trie.insert("/", vec![], "root", None, None);

    assert_eq!(*trie.lookup(&Method::GET, "/").unwrap().value, "root");
    assert!(trie.lookup(&Method::GET, "/other").is_none());
}

#[test]
fn test_unicode_paths() {
    let mut trie = RadixTrie::new();
    trie.insert("/café", vec![], "cafe", None, None);
    trie.insert("/caféteria", vec![], "cafeteria", None, None);

    assert_eq!(*trie.lookup(&Method::GET, "/café").unwrap().value, "cafe");
    assert_eq!(*trie.lookup(&Method::GET, "/caféteria").unwrap().value, "cafeteria");
}

#[test]
fn test_very_long_static_path() {
    let mut trie = RadixTrie::new();
    trie.insert("/a/very/long/static/path/that/goes/on/and/on", vec![], "long", None, None);

    assert_eq!(*trie.lookup(&Method::GET, "/a/very/long/static/path/that/goes/on/and/on").unwrap().value, "long");
    assert!(trie.lookup(&Method::GET, "/a/very/long/static/path").is_none());
}

// A route at a plain path is found by any method it answers, with no
// parameter captured, whatever else the trie holds.
#[test]
fn test_static_route_found_among_others() {
    let mut trie = RadixTrie::new();
    trie.insert("/users/:id", vec![], "param", None, None);
    trie.insert("/*rest", vec![], "catchall", None, None);
    trie.insert("/users/list", web_methods(vec![Method::GET]), "list", None, None);
    let m = trie.lookup(&Method::GET, "/users/list").unwrap();
    assert_eq!(*m.value, "list");
    assert_eq!(m.params.len(), 0);
}

#[test]
fn test_empty_param_value_does_not_match() {
    let mut trie = RadixTrie::new();
    trie.insert("/items/:id", vec![], "item", None, None);
    assert!(trie.lookup(&Method::GET, "/items/").is_none());
}

#[test]
fn test_strip_prefix_not_present_keeps_path() {
    let mut trie = RadixTrie::new();
    trie.insert("/data", vec![], "data", Some("/other".to_string()), None);
    let m = trie.lookup(&Method::GET, "/data").unwrap();
    assert_eq!(m.rewritten_path.unwrap(), "/data");
}

#[test]
fn test_add_prefix_with_trailing_slash() {
    let mut trie = RadixTrie::new();
    trie.insert("/data", vec![], "data", None, Some("/v2/".to_string()));
    let m = trie.lookup(&Method::GET, "/data").unwrap();
    assert_eq!(m.rewritten_path.unwrap(), "/v2/data");
}

#[test]
fn test_lone_route_captures_each_parameter() {
    let mut trie = RadixTrie::new();
    trie.insert("/users/:uid/files/*path", vec![Method::GET], 7u32, None, None);
    let m = trie.lookup(&Method::GET, "/users/ada/files/docs/a.txt").unwrap();
    assert_eq!(*m.value, 7);
    assert_eq!(m.params.len(), 2);
    assert_eq!(*m.params.get(0), pair("uid", "ada"));
    assert_eq!(*m.params.get(1), pair("path", "docs/a.txt"));
    // The catch-all may stand for nothing at all.
    let e = trie.lookup(&Method::GET, "/users/ada/files/").unwrap();
    assert_eq!(*e.params.get(1), pair("path", ""));
    // A method the route does not answer finds nothing.
    assert!(trie.lookup(&Method::POST, "/users/ada/files/x").is_none());
}

#[test]
fn test_route_found_among_overlapping_patterns() {
    let mut trie = RadixTrie::new();
    trie.insert("/v1/:a/x", vec![], "first", None, None);
    trie.insert("/v1/:b/y", vec![], "second", None, None);
    trie.insert("/v1/static/y", vec![Method::POST], "static_post", None, None);
    // A path the second pattern describes finds a route, even though a
    // parameter child and a static child come before.
    let m = trie.lookup(&Method::GET, "/v1/static/y").unwrap();
    assert_eq!(*m.value, "second");
    let m = trie.lookup(&Method::POST, "/v1/static/y").unwrap();
    assert_eq!(*m.value, "static_post");
}

#[test]
fn test_read_after_write_and_no_lost_match() {
    let mut trie = RadixTrie::new();
    trie.insert("/a", vec![], 1u32, None, None);
    trie.insert("/users/:id", vec![], 2u32, None, None);
    assert_eq!(*trie.lookup(&Method::GET, "/a").unwrap().value, 1);
    assert_eq!(*trie.lookup(&Method::GET, "/users/7").unwrap().value, 2);
    // A plain path registered later is found with its own value ...
    trie.insert("/a/b", vec![Method::GET], 3u32, None, None);
    assert_eq!(*trie.lookup(&Method::GET, "/a/b").unwrap().value, 3);
    trie.insert("/users/me", vec![], 4u32, None, None);
    assert_eq!(*trie.lookup(&Method::GET, "/users/me").unwrap().value, 4);
    assert_eq!(trie.lookup(&Method::GET, "/users/me").unwrap().params.len(), 0);
    // ... and every earlier match is still there.
    assert_eq!(*trie.lookup(&Method::GET, "/a").unwrap().value, 1);
    assert_eq!(*trie.lookup(&Method::GET, "/users/7").unwrap().value, 2);
    // An earlier route at the same path that answers the method wins.
    trie.insert("/a", vec![], 5u32, None, None);
    assert_eq!(*trie.lookup(&Method::GET, "/a").unwrap().value, 1);
}
