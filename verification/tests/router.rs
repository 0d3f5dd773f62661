use rserver::request::Request;
use rserver::response::response::Response;
use rserver::response::{ContentType, Status};
use rserver::router::{InvalidMethod, Method, Router};
use std::str::FromStr;

fn hello_handler(_req: &Request, res: &mut Response) {
    res.body = "Hello, World!".to_string().into();
}

fn param_handler(req: &Request, res: &mut Response) {
    let name = req.param("name").unwrap();
    res.body = format!("Hello, {}!", name).into();
}

#[test]
fn test_add_and_route_basic() {
    let mut router = Router::new();
    router.add_route(Method::GET, "/", hello_handler);
    let mut req = Request {
        method: "GET",
        path: "/",
        version: "1.1",
        headers: Vec::new(),
        params: Vec::new(),
        query_params: Vec::new(),
        body: Vec::new(),
    };

    let res = router.route(&mut req).expect("Route should be found");
    assert_eq!(res.status, Status::OK);
    assert_eq!(res.body, "Hello, World!".as_bytes());
}

#[test]
fn test_route_with_params() {
    let mut router = Router::new();
    router.add_route(Method::GET, "/user/:name", param_handler);

    let mut req = Request {
        method: "GET",
        path: "/user/alice",
        version: "1.1",
        headers: Vec::new(),
        params: Vec::new(),
        query_params: Vec::new(),
        body: Vec::new(),
    };

    let res = router.route(&mut req).expect("Route should be found");
    assert_eq!(res.status, Status::OK);
    assert_eq!(res.body, "Hello, alice!".as_bytes());
    assert_eq!(req.param("name").unwrap(), "alice");
}

#[test]
fn test_route_with_query_params() {
    let mut router = Router::new();
    let buf = b"GET /api/v1/inc/2?tex=1 HTTP/1.1\r\n\r\n";
    let mut req_from_buf = Request::parse(buf).expect("Should parse");

    router.add_route(Method::GET, "/api/v1/inc/:id", |req: &Request, res: &mut Response| {
        let id = req.param("id").unwrap();
        res.body = format!("ID is {}, query tex is {}", id, req.query(&"tex").unwrap()).into();
    });

    let res_from_buf = router
        .route(&mut req_from_buf)
        .expect("Route should be found");
    assert_eq!(res_from_buf.body, "ID is 2, query tex is 1".as_bytes());
}

#[test]
fn test_different_methods() {
    let mut router = Router::new();
    router.add_route(Method::GET, "/path", hello_handler);
    router.add_route(Method::POST, "/path", |_: &Request, res: &mut Response| {
        res.body = "POST handled".to_string().into();
    });

    let mut req_get = Request {
        method: "GET",
        path: "/path",
        version: "1.1",
        headers: Vec::new(),
        params: Vec::new(),
        query_params: Vec::new(),
        body: Vec::new(),
    };
    let res_get = router.route(&mut req_get).unwrap();
    assert_eq!(res_get.body, "Hello, World!".as_bytes());

    let mut req_post = Request {
        method: "POST",
        path: "/path",
        version: "1.1",
        headers: Vec::new(),
        params: Vec::new(),
        query_params: Vec::new(),
        body: Vec::new(),
    };
    let res_post = router.route(&mut req_post).unwrap();
    assert_eq!(res_post.body, "POST handled".as_bytes());
}

#[test]
fn test_method_from_str() {
    assert_eq!(Method::from_str("GET"), Ok(Method::GET));
    assert_eq!(Method::from_str("POST"), Ok(Method::POST));
    assert_eq!(Method::from_str("INVALID"), Err(InvalidMethod));
}

#[test]
fn test_method_index() {
    assert_eq!(Method::GET.index(), 0);
    assert_eq!(Method::OPTIONS.index(), 6);
}

#[test]
fn test_route_not_found() {
    let mut router = Router::new();
    router.add_route(Method::GET, "/path", hello_handler);

    let mut req = Request {
        method: "GET",
        path: "/wrong-path",
        version: "1.1",
        headers: Vec::new(),
        params: Vec::new(),
        query_params: Vec::new(),
        body: Vec::new(),
    };
    assert!(router.route(&mut req).is_none());
}

#[test]
fn test_route_wrong_method() {
    let mut router = Router::new();
    router.add_route(Method::GET, "/path", hello_handler);

    let mut req = Request {
        method: "POST",
        path: "/path",
        version: "1.1",
        headers: Vec::new(),
        params: Vec::new(),
        query_params: Vec::new(),
        body: Vec::new(),
    };
    assert!(router.route(&mut req).is_none());
}

#[test]
fn test_nested_routes() {
    let mut router = Router::new();
    router.add_route(Method::GET, "/api/v1/user/:name", |req: &Request, res: &mut Response| {
        let name = req.param("name").unwrap();
        res.body = format!("User: {}", name).into();
    });

    let mut req = Request {
        method: "GET",
        path: "/api/v1/user/bob",
        version: "1.1",
        headers: Vec::new(),
        params: Vec::new(),
        query_params: Vec::new(),
        body: Vec::new(),
    };
    let res = router.route(&mut req).expect("Route should be found");
    assert_eq!(res.body, "User: bob".as_bytes());
}

#[test]
fn test_param_with_multiple_parts() {
    let mut router = Router::new();
    router.add_route(Method::GET, "/a/:b/:c", |req: &Request, res: &mut Response| {
        let b = req.param("b").unwrap();
        let c = req.param("c").unwrap();
        res.body = format!("{}/{}/{}", b, c, "end").into();
    });

    let mut req = Request {
        method: "GET",
        path: "/a/foo/bar",
        version: "1.1",
        headers: Vec::new(),
        params: Vec::new(),
        query_params: Vec::new(),
        body: Vec::new(),
    };
    let res = router.route(&mut req).expect("Route should be found");
    assert_eq!(res.body, "foo/bar/end".as_bytes());
}

#[test]
fn test_param_with_multiple_parts_and_query_params() {
    let mut router = Router::new();
    let buf = b"GET /api/v1/inc/2?a=1&b=2&c=3 HTTP/1.1\r\n\r\n";
    let mut req_from_buf = Request::parse(buf).expect("Should parse");

    router.add_route(Method::GET, "/api/:version/:operation/:id", |req: &Request, res: &mut Response| {
        let id = req.param("id").unwrap();
        let version = req.param("version").unwrap();
        let operation = req.param("operation").unwrap();
        res.body = format!(
            "Version is {}, Operation is {}, ID is {}, query params is {} {} {}",
            version,
            operation,
            id,
            req.query("a").unwrap(),
            req.query("b").unwrap(),
            req.query("c").unwrap(),
        )
        .into();
    });

    let res_from_buf = router
        .route(&mut req_from_buf)
        .expect("Route should be found");
    assert_eq!(
        res_from_buf.body,
        "Version is v1, Operation is inc, ID is 2, query params is 1 2 3".as_bytes()
    );
}

fn literal_request(method: &'static str, path: &'static str) -> Request<'static> {
    Request {
        method,
        path,
        version: "1.1",
        headers: Vec::new(),
        params: Vec::new(),
        query_params: Vec::new(),
        body: Vec::new(),
    }
}

#[test]
fn static_segment_wins_over_parameter() {
    let mut router = Router::new();
    router.add_route(Method::GET, "/user/:id", param_handler);
    router.add_route(Method::GET, "/user/me", |_: &Request, res: &mut Response| {
        res.body = b"me".to_vec();
    });

    let mut req = literal_request("GET", "/user/me");
    let res = router.route(&mut req).unwrap();
    assert_eq!(res.body, b"me");
    assert!(req.params.is_empty());
}

#[test]
fn parameters_captured_before_a_failed_match_stay() {
    let mut router = Router::new();
    router.add_route(Method::GET, "/a/:x/c", hello_handler);

    let mut req = literal_request("GET", "/a/val/zzz");
    assert!(router.route(&mut req).is_none());
    assert_eq!(req.params, vec![("x".to_string(), "val".to_string())]);
}

#[test]
fn first_parameter_name_is_kept() {
    let mut router = Router::new();
    router.add_route(Method::GET, "/item/:id", |req: &Request, res: &mut Response| {
        res.body = req.param("id").unwrap_or("none").as_bytes().to_vec();
    });
    router.add_route(Method::POST, "/item/:key", |req: &Request, res: &mut Response| {
        res.body = req.param("id").unwrap_or("none").as_bytes().to_vec();
    });

    let mut req = literal_request("POST", "/item/42");
    let res = router.route(&mut req).unwrap();
    assert_eq!(res.body, b"42");
}

#[test]
fn empty_segments_and_query_are_ignored() {
    let mut router = Router::new();
    router.add_route(Method::GET, "//x///y/", hello_handler);

    let mut req = literal_request("GET", "/x/y?z=1");
    assert!(router.route(&mut req).is_some());
}

#[test]
fn middleware_runs_around_handler() {
    let mut router = Router::new();
    router.use_middleware(|req: &Request, res: &mut Response, next: rserver::router::Next| {
        res.body.extend_from_slice(b"[");
        next.run(req, res);
        res.body.extend_from_slice(b"]");
    });
    router.use_middleware(|req: &Request, res: &mut Response, next: rserver::router::Next| {
        if req.path == "/blocked" {
            res.status = Status::Forbidden;
            return;
        }
        next.run(req, res);
    });
    router.add_route(Method::GET, "/ok", |_: &Request, res: &mut Response| {
        res.body.extend_from_slice(b"ok");
    });
    router.add_route(Method::GET, "/blocked", |_: &Request, res: &mut Response| {
        res.body.extend_from_slice(b"never");
    });

    let mut ok = literal_request("GET", "/ok");
    assert_eq!(router.route(&mut ok).unwrap().body, b"[ok]");

    let mut blocked = literal_request("GET", "/blocked");
    let res = router.route(&mut blocked).unwrap();
    assert_eq!(res.body, b"[]");
    assert_eq!(res.status, Status::Forbidden);
}

#[test]
fn handle_runs_given_handler_through_middleware() {
    let mut router = Router::new();
    router.use_middleware(|req: &Request, res: &mut Response, next: rserver::router::Next| {
        res.body.push(b'<');
        next.run(req, res);
    });
    let req = literal_request("GET", "/anything");
    let mut res = Response::new(Status::OK, "", rserver::response::ContentType::TEXT);
    router.handle(&req, &mut res, |_: &Request, res: &mut Response| res.body.push(b'x'));
    assert_eq!(res.body, b"<x");
}

#[test]
fn method_names() {
    assert_eq!(Method::PATCH.as_str(), "PATCH");
    assert_eq!(Method::from_str("get"), Err(InvalidMethod));
    assert_eq!(Method::from_str("OPTIONS"), Ok(Method::OPTIONS));
}

#[test]
fn method_names_parse_back() {
    let all = [
        Method::GET,
        Method::POST,
        Method::PUT,
        Method::PATCH,
        Method::DELETE,
        Method::HEAD,
        Method::OPTIONS,
    ];
    for m in all {
        assert_eq!(Method::parse_name(m.as_str()), Ok(m));
    }
    for (i, a) in all.iter().enumerate() {
        for b in all.iter().skip(i + 1) {
            assert_ne!(a.index(), b.index());
        }
    }
    assert_eq!(Method::parse_name("get"), Err(InvalidMethod));
}

#[test]
fn respond_runs_the_route_or_the_fallback() {
    let mut router = Router::new();
    router.add_route(Method::GET, "/users/:id", |req: &Request, res: &mut Response| {
        res.body = format!("user {}", req.param("id").unwrap()).into_bytes();
    });
    let fallback = |_req: &Request, res: &mut Response| {
        res.body = b"Not Found".to_vec();
        res.status = Status::NotFound;
    };

    let mut req = Request::parse(b"GET /users/7?x=1 HTTP/1.1\r\n\r\n").unwrap();
    let mut res = Response::new(Status::OK, Vec::<u8>::new(), ContentType::TEXT);
    router.respond(&mut req, &mut res, fallback);
    assert_eq!(res.body, b"user 7");
    assert_eq!(res.status, Status::OK);

    let mut req = Request::parse(b"GET /other HTTP/1.1\r\n\r\n").unwrap();
    let mut res = Response::new(Status::OK, Vec::<u8>::new(), ContentType::TEXT);
    router.respond(&mut req, &mut res, fallback);
    assert_eq!(res.body, b"Not Found");
    assert_eq!(res.status, Status::NotFound);

    let mut req = Request::parse(b"FOO /users/7 HTTP/1.1\r\n\r\n").unwrap();
    let mut res = Response::new(Status::OK, Vec::<u8>::new(), ContentType::TEXT);
    router.respond(&mut req, &mut res, fallback);
    assert_eq!(res.body, b"Not Found");
    assert_eq!(req.param("id"), Some("7"));
}

#[test]
fn route_answers_none_for_an_unknown_method() {
    let mut router = Router::new();
    router.add_route(Method::GET, "/path", |_req: &Request, res: &mut Response| {
        res.body = b"hello".to_vec();
    });
    let mut req = Request::parse(b"FOO /path HTTP/1.1\r\n\r\n").unwrap();
    assert!(router.route(&mut req).is_none());
}
