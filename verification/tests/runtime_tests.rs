use aether::ast::{Expr, Program};
use aether::evaluator::{check_program, optimize_expr, render_output, Environment};
use aether::security::security_check;
use aether::settings::localized;
use aether::studio::{html_response, route_request, text_response, StudioRoute};
use aether::text::{contains_text, text_is};

#[test]
fn environment_reads_back_what_was_set() {
    let mut env: Environment<i64> = Environment::new();
    assert_eq!(env.get("x"), None);
    env.set("x".to_string(), 3);
    env.set("y".to_string(), 4);
    assert_eq!(env.get("x"), Some(3));
    env.set("x".to_string(), 5);
    assert_eq!(env.get("x"), Some(5));
    assert_eq!(env.get("y"), Some(4));
    assert!(env.output.is_empty());
}

#[test]
fn program_checks_always_pass() {
    assert_eq!(check_program(&Program { statements: vec![] }), Ok(()));
    let e = Expr::Number("7".to_string());
    assert_eq!(optimize_expr(e), Expr::Number("7".to_string()));
}

#[test]
fn output_is_joined_by_lines() {
    let lines = vec!["a".to_string(), "b".to_string(), "c".to_string()];
    assert_eq!(render_output(&lines, "OK"), "a\nb\nc");
    assert_eq!(render_output(&vec![], "OK"), "OK");
    assert_eq!(render_output(&vec!["".to_string()], "OK (Bez výstupu)"), "OK (Bez výstupu)");
    assert_eq!(render_output(&vec!["".to_string(), "".to_string()], "OK"), "\n");
}

#[test]
fn security_check_rejects_forbidden_commands() {
    assert_eq!(security_check("print 1", "MALWARE"), Ok(()));
    assert_eq!(
        security_check("cmd(\"rm -rf /\")", "MALWARE DETECTED!"),
        Err("MALWARE DETECTED! cmd(\"rm".to_string())
    );
    assert_eq!(security_check("cmd('del x')", "X"), Err("X cmd('del".to_string()));
    // The first forbidden command in list order wins, not the first in the text.
    assert_eq!(
        security_check("cmd(\"format c:\") cmd('rm x')", "X"),
        Err("X cmd('rm".to_string())
    );
    assert_eq!(security_check("cmd(\"ls\")", "X"), Ok(()));
}

#[test]
fn language_follows_the_configuration() {
    assert_eq!(localized("language-of-aether=cs\n", "Hello", "Ahoj"), "Ahoj");
    assert_eq!(localized("language-of-aether=en\n", "Hello", "Ahoj"), "Hello");
    assert_eq!(localized("", "Hello", "Ahoj"), "Hello");
}

#[test]
fn studio_routes_requests() {
    assert_eq!(
        route_request("POST /run HTTP/1.1\r\nHost: x\r\n\r\n  print 1 \n\0\0\0"),
        StudioRoute::Run("print 1".to_string())
    );
    assert_eq!(route_request("POST /run HTTP/1.1\r\nHost: x"), StudioRoute::Ignore);
    assert_eq!(route_request("GET / HTTP/1.1\r\n\r\n"), StudioRoute::Page);
    assert_eq!(route_request("POST /run\r\n\r\n\0 x \0"), StudioRoute::Run("x".to_string()));
}

#[test]
fn studio_responses_have_headers() {
    assert_eq!(
        text_response("OK"),
        "HTTP/1.1 200 OK\r\nContent-Type: text/plain; charset=utf-8\r\nAccess-Control-Allow-Origin: *\r\n\r\nOK"
    );
    assert_eq!(
        html_response("<p>"),
        "HTTP/1.1 200 OK\r\nContent-Type: text/html; charset=utf-8\r\n\r\n<p>"
    );
}

#[test]
fn text_helpers() {
    assert!(text_is("abc", "abc"));
    assert!(!text_is("abc", "abd"));
    assert!(!text_is("abc", "ab"));
    assert!(contains_text("+-*/", "-"));
    assert!(contains_text("abc", ""));
    assert!(!contains_text("+-*/", "=="));
    assert!(!contains_text("ab", "abc"));
}
