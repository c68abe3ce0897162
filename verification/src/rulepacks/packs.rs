//! The embedded rule packs, one per vulnerability family or language.
use vstd::prelude::*;
use crate::rules::{Matcher, MatcherView, RegistryView, Rule, RuleKind, RulePack, RulePackView, RuleRegistry, RuleView, Severity};

verus! {

/// A rule with every optional field present.
pub open spec fn rule_view(
    id: Seq<char>,
    name: Seq<char>,
    kind: RuleKind,
    lang: Seq<char>,
    cwe: Option<u32>,
    severity: Severity,
    category: Seq<char>,
    description: Seq<char>,
    matcher: MatcherView,
) -> RuleView {
    RuleView {
        id,
        name,
        kind,
        language: Some(lang),
        cwe,
        severity,
        category: Some(category),
        description: Some(description),
        matcher,
    }
}

/// A source matched by bare function name.
pub open spec fn source_view(id: Seq<char>, name: Seq<char>, lang: Seq<char>, f: Seq<char>, cwe: Option<u32>, cat: Seq<char>) -> RuleView {
    rule_view(id, name, RuleKind::Source, lang, cwe, Severity::Info, cat,
        f + " is a user-controlled input source."@, MatcherView::FunctionName(f))
}

/// A source matched by qualified name.
pub open spec fn qualified_source_view(id: Seq<char>, name: Seq<char>, lang: Seq<char>, qn: Seq<char>, cwe: Option<u32>, cat: Seq<char>) -> RuleView {
    rule_view(id, name, RuleKind::Source, lang, cwe, Severity::Info, cat,
        qn + " is a user-controlled input source."@, MatcherView::QualifiedName(qn))
}

/// A source matched by class and method.
pub open spec fn method_source_view(
    id: Seq<char>, name: Seq<char>, lang: Seq<char>, class: Seq<char>, method: Seq<char>, cwe: Option<u32>, cat: Seq<char>,
) -> RuleView {
    rule_view(id, name, RuleKind::Source, lang, cwe, Severity::Info, cat,
        class + "."@ + method + " is a user-controlled input source."@,
        MatcherView::MethodName { class, method })
}

/// A sink matched by bare function name.
pub open spec fn sink_view(
    id: Seq<char>, name: Seq<char>, lang: Seq<char>, f: Seq<char>, cwe: u32, sev: Severity, cat: Seq<char>, desc: Seq<char>,
) -> RuleView {
    rule_view(id, name, RuleKind::Sink, lang, Some(cwe), sev, cat, desc, MatcherView::FunctionName(f))
}

/// A sink matched by qualified name.
pub open spec fn qualified_sink_view(
    id: Seq<char>, name: Seq<char>, lang: Seq<char>, qn: Seq<char>, cwe: u32, sev: Severity, cat: Seq<char>, desc: Seq<char>,
) -> RuleView {
    rule_view(id, name, RuleKind::Sink, lang, Some(cwe), sev, cat, desc, MatcherView::QualifiedName(qn))
}

/// A sink matched by class and method.
pub open spec fn method_sink_view(
    id: Seq<char>, name: Seq<char>, lang: Seq<char>, class: Seq<char>, method: Seq<char>, cwe: u32, sev: Severity,
    cat: Seq<char>, desc: Seq<char>,
) -> RuleView {
    rule_view(id, name, RuleKind::Sink, lang, Some(cwe), sev, cat, desc, MatcherView::MethodName { class, method })
}

/// A sanitizer matched by bare function name.
pub open spec fn sanitizer_view(id: Seq<char>, name: Seq<char>, lang: Seq<char>, f: Seq<char>, cat: Seq<char>) -> RuleView {
    rule_view(id, name, RuleKind::Sanitizer, lang, None, Severity::Info, cat,
        f + " sanitizes tainted input."@, MatcherView::FunctionName(f))
}

/// A sanitizer matched by qualified name.
pub open spec fn qualified_sanitizer_view(id: Seq<char>, name: Seq<char>, lang: Seq<char>, qn: Seq<char>, cat: Seq<char>) -> RuleView {
    rule_view(id, name, RuleKind::Sanitizer, lang, None, Severity::Info, cat,
        qn + " sanitizes tainted input."@, MatcherView::QualifiedName(qn))
}

/// A sanitizer matched by class and method.
pub open spec fn method_sanitizer_view(
    id: Seq<char>, name: Seq<char>, lang: Seq<char>, class: Seq<char>, method: Seq<char>, cat: Seq<char>,
) -> RuleView {
    rule_view(id, name, RuleKind::Sanitizer, lang, None, Severity::Info, cat,
        class + "."@ + method + " sanitizes tainted input."@, MatcherView::MethodName { class, method })
}

/// A propagator matched by class and method.
pub open spec fn propagator_view(id: Seq<char>, name: Seq<char>, lang: Seq<char>, class: Seq<char>, method: Seq<char>) -> RuleView {
    rule_view(id, name, RuleKind::Propagator, lang, None, Severity::Info, "propagator"@,
        class + "."@ + method + " propagates taint from arguments."@, MatcherView::MethodName { class, method })
}

fn text(s: &str) -> (r: String)
    ensures
        r@ == s@,
{
    String::from_str(s)
}

fn joined(a: &str, b: &str) -> (r: String)
    ensures
        r@ == a@ + b@,
{
    let mut s = text(a);
    s.append(b);
    s
}

fn method_joined(class: &str, method: &str, tail: &str) -> (r: String)
    ensures
        r@ == class@ + "."@ + method@ + tail@,
{
    let mut s = text(class);
    s.append(".");
    s.append(method);
    s.append(tail);
    s
}

fn rule(
    id: &str, name: &str, kind: RuleKind, lang: &str, cwe: Option<u32>, severity: Severity, category: &str,
    description: String, matcher: Matcher,
) -> (r: Rule)
    ensures
        r@ == rule_view(id@, name@, kind, lang@, cwe, severity, category@, description@, matcher@),
{
    Rule {
        id: text(id),
        name: text(name),
        kind,
        language: Some(text(lang)),
        cwe,
        severity,
        category: Some(text(category)),
        description: Some(description),
        matcher,
    }
}

fn src(id: &str, name: &str, lang: &str, fn_name: &str, cwe: Option<u32>, cat: &str) -> (r: Rule)
    ensures
        r@ == source_view(id@, name@, lang@, fn_name@, cwe, cat@),
{
    rule(id, name, RuleKind::Source, lang, cwe, Severity::Info, cat,
        joined(fn_name, " is a user-controlled input source."), Matcher::FunctionName(text(fn_name)))
}

fn src_qn(id: &str, name: &str, lang: &str, qn: &str, cwe: Option<u32>, cat: &str) -> (r: Rule)
    ensures
        r@ == qualified_source_view(id@, name@, lang@, qn@, cwe, cat@),
{
    rule(id, name, RuleKind::Source, lang, cwe, Severity::Info, cat,
        joined(qn, " is a user-controlled input source."), Matcher::QualifiedName(text(qn)))
}

fn src_method(id: &str, name: &str, lang: &str, class: &str, method: &str, cwe: Option<u32>, cat: &str) -> (r: Rule)
    ensures
        r@ == method_source_view(id@, name@, lang@, class@, method@, cwe, cat@),
{
    rule(id, name, RuleKind::Source, lang, cwe, Severity::Info, cat,
        method_joined(class, method, " is a user-controlled input source."),
        Matcher::MethodName { class: text(class), method: text(method) })
}

fn sink(id: &str, name: &str, lang: &str, fn_name: &str, cwe: u32, sev: Severity, cat: &str, desc: &str) -> (r: Rule)
    ensures
        r@ == sink_view(id@, name@, lang@, fn_name@, cwe, sev, cat@, desc@),
{
    rule(id, name, RuleKind::Sink, lang, Some(cwe), sev, cat, text(desc), Matcher::FunctionName(text(fn_name)))
}

fn sink_qn(id: &str, name: &str, lang: &str, qn: &str, cwe: u32, sev: Severity, cat: &str, desc: &str) -> (r: Rule)
    ensures
        r@ == qualified_sink_view(id@, name@, lang@, qn@, cwe, sev, cat@, desc@),
{
    rule(id, name, RuleKind::Sink, lang, Some(cwe), sev, cat, text(desc), Matcher::QualifiedName(text(qn)))
}

fn sink_method(
    id: &str, name: &str, lang: &str, class: &str, method: &str, cwe: u32, sev: Severity, cat: &str, desc: &str,
) -> (r: Rule)
    ensures
        r@ == method_sink_view(id@, name@, lang@, class@, method@, cwe, sev, cat@, desc@),
{
    rule(id, name, RuleKind::Sink, lang, Some(cwe), sev, cat, text(desc),
        Matcher::MethodName { class: text(class), method: text(method) })
}

fn san(id: &str, name: &str, lang: &str, fn_name: &str, cat: &str) -> (r: Rule)
    ensures
        r@ == sanitizer_view(id@, name@, lang@, fn_name@, cat@),
{
    rule(id, name, RuleKind::Sanitizer, lang, None, Severity::Info, cat,
        joined(fn_name, " sanitizes tainted input."), Matcher::FunctionName(text(fn_name)))
}

fn san_qn(id: &str, name: &str, lang: &str, qn: &str, cat: &str) -> (r: Rule)
    ensures
        r@ == qualified_sanitizer_view(id@, name@, lang@, qn@, cat@),
{
    rule(id, name, RuleKind::Sanitizer, lang, None, Severity::Info, cat,
        joined(qn, " sanitizes tainted input."), Matcher::QualifiedName(text(qn)))
}

fn san_method(id: &str, name: &str, lang: &str, class: &str, method: &str, cat: &str) -> (r: Rule)
    ensures
        r@ == method_sanitizer_view(id@, name@, lang@, class@, method@, cat@),
{
    rule(id, name, RuleKind::Sanitizer, lang, None, Severity::Info, cat,
        method_joined(class, method, " sanitizes tainted input."),
        Matcher::MethodName { class: text(class), method: text(method) })
}

fn prop_method(id: &str, name: &str, lang: &str, class: &str, method: &str) -> (r: Rule)
    ensures
        r@ == propagator_view(id@, name@, lang@, class@, method@),
{
    rule(id, name, RuleKind::Propagator, lang, None, Severity::Info, "propagator",
        method_joined(class, method, " propagates taint from arguments."),
        Matcher::MethodName { class: text(class), method: text(method) })
}

/// The rules of the `core` pack.
pub open spec fn core_pack_view() -> RulePackView {
    RulePackView {
        name: "core"@,
        rules: seq![
            source_view("core-src-001"@, "Generic user input"@, "any"@, "input"@, None, "input"@),
            source_view("core-src-002"@, "Generic read"@, "any"@, "read"@, None, "input"@),
            sink_view("core-sink-001"@, "eval() Code Injection"@, "python"@, "eval"@, 95u32, Severity::Critical, "code-injection"@, "Executing eval() on untrusted input enables arbitrary code execution."@),
            sink_view("core-sink-002"@, "exec() Code Injection"@, "python"@, "exec"@, 94u32, Severity::Critical, "code-injection"@, "Executing exec() on untrusted input enables arbitrary code execution."@),
            sink_view("core-sink-003"@, "compile() Code Injection"@, "python"@, "compile"@, 94u32, Severity::Critical, "code-injection"@, "Compiling and executing untrusted code strings is dangerous."@),
            sanitizer_view("core-san-001"@, "html.escape sanitizer"@, "python"@, "html.escape"@, "xss"@),
            qualified_sanitizer_view("core-san-002"@, "markupsafe.escape sanitizer"@, "python"@, "markupsafe.escape"@, "xss"@),
            qualified_sanitizer_view("core-san-003"@, "bleach.clean sanitizer"@, "python"@, "bleach.clean"@, "xss"@),
            qualified_sanitizer_view("core-san-004"@, "urllib.parse.quote sanitizer"@, "python"@, "urllib.parse.quote"@, "ssrf"@),
            qualified_sanitizer_view("core-san-005"@, "urllib.parse.quote_plus sanitizer"@, "python"@, "urllib.parse.quote_plus"@, "ssrf"@),
            qualified_sanitizer_view("core-san-006"@, "shlex.quote sanitizer"@, "python"@, "shlex.quote"@, "command-injection"@),
            sanitizer_view("core-san-007"@, "os.path.realpath sanitizer"@, "python"@, "os.path.realpath"@, "path-traversal"@),
            qualified_sanitizer_view("core-san-008"@, "os.path.abspath sanitizer"@, "python"@, "os.path.abspath"@, "path-traversal"@),
        ],
    }
}

/// The rules of the `python` pack.
pub open spec fn python_pack_view() -> RulePackView {
    RulePackView {
        name: "python"@,
        rules: seq![
            source_view("py-src-001"@, "Python input() source"@, "python"@, "input"@, None, "input"@),
            qualified_source_view("py-src-002"@, "os.environ source"@, "python"@, "os.environ.get"@, None, "environment"@),
            qualified_source_view("py-src-003"@, "os.getenv source"@, "python"@, "os.getenv"@, None, "environment"@),
            qualified_source_view("py-src-004"@, "sys.argv source"@, "python"@, "sys.argv"@, None, "cli-arg"@),
            qualified_source_view("py-src-005"@, "flask request.args source"@, "python"@, "flask.request.args.get"@, None, "http-param"@),
            qualified_source_view("py-src-006"@, "flask request.form source"@, "python"@, "flask.request.form.get"@, None, "http-param"@),
            qualified_source_view("py-src-007"@, "flask request.json source"@, "python"@, "flask.request.get_json"@, None, "http-param"@),
            qualified_source_view("py-src-008"@, "django GET params source"@, "python"@, "django.request.GET.get"@, None, "http-param"@),
            qualified_source_view("py-src-009"@, "django POST params source"@, "python"@, "django.request.POST.get"@, None, "http-param"@),
            qualified_source_view("py-src-010"@, "subprocess stdout source"@, "python"@, "subprocess.check_output"@, None, "subprocess-output"@),
            qualified_source_view("py-src-011"@, "socket recv source"@, "python"@, "socket.recv"@, None, "socket-input"@),
            qualified_source_view("py-src-012"@, "socket recvfrom source"@, "python"@, "socket.recvfrom"@, None, "socket-input"@),
            qualified_source_view("py-src-013"@, "flask request.args dict"@, "python"@, "flask.request.args"@, None, "http-param"@),
            qualified_source_view("py-src-014"@, "flask request.form dict"@, "python"@, "flask.request.form"@, None, "http-param"@),
            qualified_source_view("py-src-015"@, "flask request.values"@, "python"@, "flask.request.values"@, None, "http-param"@),
            qualified_source_view("py-src-016"@, "flask request.json dict"@, "python"@, "flask.request.json"@, None, "http-param"@),
            qualified_source_view("py-src-017"@, "flask request.headers"@, "python"@, "flask.request.headers"@, None, "http-header"@),
            qualified_source_view("py-src-018"@, "flask request.cookies"@, "python"@, "flask.request.cookies"@, None, "http-cookie"@),
            qualified_source_view("py-src-019"@, "fastapi Request"@, "python"@, "fastapi.Request"@, None, "http-param"@),
            qualified_source_view("py-src-020"@, "starlette Request"@, "python"@, "starlette.Request"@, None, "http-param"@),
            qualified_source_view("py-src-021"@, "django GET dict"@, "python"@, "django.request.GET"@, None, "http-param"@),
            qualified_source_view("py-src-022"@, "django POST dict"@, "python"@, "django.request.POST"@, None, "http-param"@),
            qualified_source_view("py-src-023"@, "os.environ dict"@, "python"@, "os.environ"@, None, "environment"@),
            qualified_source_view("py-src-024"@, "argparse parse_args"@, "python"@, "argparse.ArgumentParser.parse_args"@, None, "cli-arg"@),
            qualified_source_view("py-src-025"@, "click option"@, "python"@, "click.option"@, None, "cli-arg"@),
            qualified_source_view("py-src-026"@, "click argument"@, "python"@, "click.argument"@, None, "cli-arg"@),
            qualified_sanitizer_view("py-san-001"@, "html.escape"@, "python"@, "html.escape"@, "xss"@),
            qualified_sanitizer_view("py-san-002"@, "re.escape"@, "python"@, "re.escape"@, "regex-injection"@),
            qualified_sanitizer_view("py-san-003"@, "urllib.parse.urlencode"@, "python"@, "urllib.parse.urlencode"@, "ssrf"@),
        ],
    }
}

/// The rules of the `java` pack.
pub open spec fn java_pack_view() -> RulePackView {
    RulePackView {
        name: "java"@,
        rules: seq![
            method_source_view("java-src-001"@, "HttpServletRequest.getParameter"@, "java"@, "HttpServletRequest"@, "getParameter"@, None, "http-param"@),
            method_source_view("java-src-002"@, "HttpServletRequest.getHeader"@, "java"@, "HttpServletRequest"@, "getHeader"@, None, "http-header"@),
            method_source_view("java-src-003"@, "HttpServletRequest.getQueryString"@, "java"@, "HttpServletRequest"@, "getQueryString"@, None, "http-param"@),
            method_source_view("java-src-004"@, "Scanner.nextLine source"@, "java"@, "Scanner"@, "nextLine"@, None, "input"@),
            method_source_view("java-src-005"@, "Scanner.next source"@, "java"@, "Scanner"@, "next"@, None, "input"@),
            method_source_view("java-src-006"@, "BufferedReader.readLine source"@, "java"@, "BufferedReader"@, "readLine"@, None, "input"@),
            method_source_view("java-src-007"@, "System.getenv source"@, "java"@, "System"@, "getenv"@, None, "environment"@),
            method_source_view("java-src-008"@, "System.console().readLine source"@, "java"@, "Console"@, "readLine"@, None, "input"@),
            method_source_view("java-src-009"@, "ServletRequest.getParameter"@, "java"@, "ServletRequest"@, "getParameter"@, None, "http-param"@),
            method_source_view("java-src-010"@, "ServletRequest.getParameterValues"@, "java"@, "ServletRequest"@, "getParameterValues"@, None, "http-param"@),
            method_source_view("java-src-011"@, "HttpServletRequest.getCookies"@, "java"@, "HttpServletRequest"@, "getCookies"@, None, "http-cookie"@),
            method_source_view("java-src-012"@, "HttpServletRequest.getParameterMap"@, "java"@, "HttpServletRequest"@, "getParameterMap"@, None, "http-param"@),
            method_source_view("java-src-013"@, "HttpServletRequest.getInputStream"@, "java"@, "HttpServletRequest"@, "getInputStream"@, None, "http-param"@),
            method_source_view("java-src-014"@, "HttpServletRequest.getReader"@, "java"@, "HttpServletRequest"@, "getReader"@, None, "http-param"@),
            source_view("java-src-015"@, "Spring RequestParam annotation"@, "java"@, "RequestParam"@, None, "http-param"@),
            source_view("java-src-016"@, "Spring PathVariable annotation"@, "java"@, "PathVariable"@, None, "http-param"@),
            source_view("java-src-017"@, "Spring RequestBody annotation"@, "java"@, "RequestBody"@, None, "http-param"@),
            method_sanitizer_view("java-san-001"@, "PreparedStatement.setString"@, "java"@, "PreparedStatement"@, "setString"@, "sql-injection"@),
            method_sanitizer_view("java-san-002"@, "Path.normalize"@, "java"@, "Path"@, "normalize"@, "path-traversal"@),
            method_sanitizer_view("java-san-003"@, "StringEscapeUtils.escapeHtml4"@, "java"@, "StringEscapeUtils"@, "escapeHtml4"@, "xss"@),
            method_sanitizer_view("java-san-004"@, "StringEscapeUtils.escapeSql"@, "java"@, "StringEscapeUtils"@, "escapeSql"@, "sql-injection"@),
            method_sanitizer_view("java-san-005"@, "ESAPI.encoder().encodeForHTML"@, "java"@, "Encoder"@, "encodeForHTML"@, "xss"@),
            propagator_view("java-prop-001"@, "java.net.URLDecoder.decode"@, "java"@, "URLDecoder"@, "decode"@),
            propagator_view("java-prop-002"@, "java.net.URLEncoder.encode"@, "java"@, "URLEncoder"@, "encode"@),
            propagator_view("java-prop-003"@, "java.lang.String.valueOf"@, "java"@, "String"@, "valueOf"@),
            propagator_view("java-prop-004"@, "java.util.Base64.Decoder.decode"@, "java"@, "Decoder"@, "decode"@),
            propagator_view("java-prop-005"@, "java.lang.Integer.parseInt"@, "java"@, "Integer"@, "parseInt"@),
            propagator_view("java-prop-006"@, "java.util.Enumeration.nextElement"@, "java"@, "Enumeration"@, "nextElement"@),
            propagator_view("java-prop-008"@, "java.sql.Connection.prepareStatement"@, "java"@, "Connection"@, "prepareStatement"@),
            propagator_view("java-prop-009"@, "java.sql.Connection.prepareCall"@, "java"@, "Connection"@, "prepareCall"@),
            propagator_view("java-prop-010"@, "java.sql.Connection.createStatement"@, "java"@, "Connection"@, "createStatement"@),
            propagator_view("java-prop-011"@, "java.lang.ProcessBuilder.ProcessBuilder"@, "java"@, "ProcessBuilder"@, "ProcessBuilder"@),
            propagator_view("java-prop-012"@, "java.lang.ProcessBuilder.command"@, "java"@, "ProcessBuilder"@, "command"@),
        ],
    }
}

/// The rules of the `web` pack.
pub open spec fn web_pack_view() -> RulePackView {
    RulePackView {
        name: "web"@,
        rules: seq![
            sink_view("web-xss-001"@, "Flask render_template_string XSS"@, "python"@, "render_template_string"@, 79u32, Severity::High, "xss"@, "Rendering untrusted input in a template can cause XSS."@),
            qualified_sink_view("web-xss-002"@, "Django mark_safe XSS"@, "python"@, "django.utils.safestring.mark_safe"@, 79u32, Severity::High, "xss"@, "mark_safe() bypasses Django's auto-escaping."@),
            qualified_sink_view("web-xss-003"@, "Jinja2 Markup XSS"@, "python"@, "jinja2.Markup"@, 79u32, Severity::High, "xss"@, "Wrapping untrusted data in Markup() disables Jinja2 escaping."@),
            method_sink_view("web-xss-004"@, "PrintWriter.println XSS"@, "java"@, "PrintWriter"@, "println"@, 79u32, Severity::High, "xss"@, "Writing untrusted data directly to HTTP response can cause XSS."@),
            method_sink_view("web-xss-005"@, "HttpServletResponse.getWriter XSS"@, "java"@, "PrintWriter"@, "print"@, 79u32, Severity::High, "xss"@, "Writing untrusted data to response output can cause XSS."@),
            sink_view("web-redir-001"@, "Flask redirect() Open Redirect"@, "python"@, "redirect"@, 601u32, Severity::Medium, "open-redirect"@, "Redirecting to a user-controlled URL is an open redirect vulnerability."@),
            method_sink_view("web-redir-002"@, "HttpServletResponse.sendRedirect"@, "java"@, "HttpServletResponse"@, "sendRedirect"@, 601u32, Severity::Medium, "open-redirect"@, "sendRedirect() with untrusted input is an open redirect."@),
            method_sink_view("web-csrf-001"@, "CSRF: missing token check"@, "java"@, "HttpServletRequest"@, "getParameter"@, 352u32, Severity::Medium, "csrf"@, "Ensure CSRF token is validated on state-changing requests."@),
        ],
    }
}

/// The rules of the `database` pack.
pub open spec fn database_pack_view() -> RulePackView {
    RulePackView {
        name: "database"@,
        rules: seq![
            method_sink_view("db-sqli-001"@, "cursor.execute() SQL Injection"@, "python"@, "cursor"@, "execute"@, 89u32, Severity::Critical, "sql-injection"@, "Passing untrusted input to cursor.execute() enables SQL injection."@),
            method_sink_view("db-sqli-002"@, "db.execute() SQL Injection"@, "python"@, "db"@, "execute"@, 89u32, Severity::Critical, "sql-injection"@, "String-format SQL queries are vulnerable to injection."@),
            method_sink_view("db-sqli-003"@, "connection.execute() SQL Injection"@, "python"@, "connection"@, "execute"@, 89u32, Severity::Critical, "sql-injection"@, "Untrusted data in a SQL query enables injection attacks."@),
            qualified_sink_view("db-sqli-004"@, "SQLAlchemy text() SQL Injection"@, "python"@, "sqlalchemy.text"@, 89u32, Severity::High, "sql-injection"@, "Using sqlalchemy.text() with untrusted input can bypass ORM protections."@),
            method_sink_view("db-sqli-005"@, "Statement.execute() SQL Injection"@, "java"@, "Statement"@, "execute"@, 89u32, Severity::Critical, "sql-injection"@, "Dynamic SQL via Statement.execute() is vulnerable to injection."@),
            method_sink_view("db-sqli-006"@, "Statement.executeQuery() SQL Injection"@, "java"@, "Statement"@, "executeQuery"@, 89u32, Severity::Critical, "sql-injection"@, "Dynamic SQL queries are vulnerable to injection."@),
            method_sink_view("db-sqli-007"@, "Statement.executeUpdate() SQL Injection"@, "java"@, "Statement"@, "executeUpdate"@, 89u32, Severity::Critical, "sql-injection"@, "String-concatenated SQL update statements are vulnerable."@),
            method_sink_view("db-sqli-008"@, "EntityManager.createQuery SQL Injection"@, "java"@, "EntityManager"@, "createQuery"@, 89u32, Severity::High, "sql-injection"@, "JPQL queries built with untrusted input can be exploited."@),
        ],
    }
}

/// The rules of the `filesystem` pack.
pub open spec fn filesystem_pack_view() -> RulePackView {
    RulePackView {
        name: "filesystem"@,
        rules: seq![
            sink_view("fs-trav-001"@, "open() Path Traversal"@, "python"@, "open"@, 22u32, Severity::High, "path-traversal"@, "Opening files with user-controlled paths can traverse directories."@),
            qualified_sink_view("fs-trav-002"@, "os.path.join Path Traversal"@, "python"@, "os.path.join"@, 22u32, Severity::High, "path-traversal"@, "os.path.join with untrusted components enables path traversal."@),
            qualified_sink_view("fs-trav-003"@, "pathlib.Path Path Traversal"@, "python"@, "pathlib.Path"@, 22u32, Severity::High, "path-traversal"@, "Constructing paths from untrusted input enables traversal."@),
            qualified_sink_view("fs-trav-004"@, "shutil.copy Path Traversal"@, "python"@, "shutil.copy"@, 22u32, Severity::High, "path-traversal"@, "Copying files with untrusted paths can overwrite arbitrary files."@),
            method_sink_view("fs-trav-005"@, "FileInputStream Path Traversal"@, "java"@, "FileInputStream"@, "FileInputStream"@, 22u32, Severity::High, "path-traversal"@, "Opening files via FileInputStream with untrusted paths."@),
            method_sink_view("fs-trav-006"@, "FileReader Path Traversal"@, "java"@, "FileReader"@, "FileReader"@, 22u32, Severity::High, "path-traversal"@, "Opening files via FileReader with untrusted paths."@),
            method_sink_view("fs-trav-007"@, "File.getCanonicalPath check"@, "java"@, "File"@, "getCanonicalPath"@, 22u32, Severity::Medium, "path-traversal"@, "Canonical path should be validated against a safe base directory."@),
            qualified_sanitizer_view("fs-san-001"@, "os.path.realpath sanitizer"@, "python"@, "os.path.realpath"@, "path-traversal"@),
            method_sanitizer_view("fs-san-002"@, "Path.normalize sanitizer"@, "java"@, "Path"@, "normalize"@, "path-traversal"@),
            method_sanitizer_view("fs-san-003"@, "Path.toRealPath sanitizer"@, "java"@, "Path"@, "toRealPath"@, "path-traversal"@),
        ],
    }
}

/// The rules of the `deserialization` pack.
pub open spec fn deserialization_pack_view() -> RulePackView {
    RulePackView {
        name: "deserialization"@,
        rules: seq![
            qualified_sink_view("deser-001"@, "pickle.loads Insecure Deserialization"@, "python"@, "pickle.loads"@, 502u32, Severity::Critical, "deserialization"@, "pickle.loads() on untrusted data allows arbitrary code execution."@),
            qualified_sink_view("deser-002"@, "pickle.load Insecure Deserialization"@, "python"@, "pickle.load"@, 502u32, Severity::Critical, "deserialization"@, "pickle.load() on untrusted data allows arbitrary code execution."@),
            qualified_sink_view("deser-003"@, "yaml.load Insecure Deserialization"@, "python"@, "yaml.load"@, 502u32, Severity::Critical, "deserialization"@, "yaml.load() without Loader=SafeLoader can execute arbitrary Python."@),
            qualified_sink_view("deser-004"@, "marshal.loads Insecure Deserialization"@, "python"@, "marshal.loads"@, 502u32, Severity::Critical, "deserialization"@, "marshal.loads() on untrusted data is dangerous."@),
            qualified_sink_view("deser-005"@, "jsonpickle.decode Insecure Deserialization"@, "python"@, "jsonpickle.decode"@, 502u32, Severity::Critical, "deserialization"@, "jsonpickle.decode() allows arbitrary object construction."@),
            method_sink_view("deser-006"@, "ObjectInputStream.readObject"@, "java"@, "ObjectInputStream"@, "readObject"@, 502u32, Severity::Critical, "deserialization"@, "Java deserialization via readObject() with untrusted data."@),
            method_sink_view("deser-007"@, "XStream.fromXML"@, "java"@, "XStream"@, "fromXML"@, 502u32, Severity::Critical, "deserialization"@, "XStream deserialization of untrusted XML can execute code."@),
        ],
    }
}

/// The rules of the `cryptography` pack.
pub open spec fn cryptography_pack_view() -> RulePackView {
    RulePackView {
        name: "cryptography"@,
        rules: seq![
            qualified_sink_view("crypto-001"@, "hashlib.md5 Weak Hash"@, "python"@, "hashlib.md5"@, 327u32, Severity::Medium, "weak-cryptography"@, "MD5 is cryptographically broken; use SHA-256 or better."@),
            qualified_sink_view("crypto-002"@, "hashlib.sha1 Weak Hash"@, "python"@, "hashlib.sha1"@, 327u32, Severity::Medium, "weak-cryptography"@, "SHA-1 is deprecated for security use; use SHA-256 or better."@),
            method_sink_view("crypto-003"@, "Java MD5 Weak Hash"@, "java"@, "MessageDigest"@, "getInstance"@, 327u32, Severity::Medium, "weak-cryptography"@, "Verify that MD5 or SHA-1 is not passed to MessageDigest.getInstance()."@),
            method_sink_view("crypto-004"@, "DES Weak Cipher"@, "java"@, "Cipher"@, "getInstance"@, 327u32, Severity::High, "weak-cryptography"@, "DES and 3DES are considered insecure; use AES-256."@),
            qualified_sink_view("crypto-005"@, "Python DES usage"@, "python"@, "Crypto.Cipher.DES.new"@, 327u32, Severity::High, "weak-cryptography"@, "DES cipher is insecure; prefer AES."@),
            qualified_sink_view("crypto-006"@, "smtplib.SMTP cleartext"@, "python"@, "smtplib.SMTP"@, 319u32, Severity::High, "cleartext-transmission"@, "smtplib.SMTP() uses cleartext; use SMTP_SSL or starttls()."@),
            qualified_sink_view("crypto-007"@, "ftplib.FTP cleartext"@, "python"@, "ftplib.FTP"@, 319u32, Severity::High, "cleartext-transmission"@, "FTP transmits credentials in cleartext; use FTPS."@),
            method_sink_view("crypto-008"@, "HttpURLConnection cleartext"@, "java"@, "HttpURLConnection"@, "openConnection"@, 319u32, Severity::Medium, "cleartext-transmission"@, "HTTP connections are unencrypted; use HTTPS."@),
        ],
    }
}

/// The rules of the `authentication` pack.
pub open spec fn authentication_pack_view() -> RulePackView {
    RulePackView {
        name: "authentication"@,
        rules: seq![
            sink_view("auth-001"@, "Hardcoded password in connect()"@, "python"@, "connect"@, 798u32, Severity::Critical, "hardcoded-credentials"@, "Database connect() with a hardcoded password."@),
            method_sink_view("auth-002"@, "DriverManager.getConnection hardcoded"@, "java"@, "DriverManager"@, "getConnection"@, 798u32, Severity::Critical, "hardcoded-credentials"@, "JDBC connection with hardcoded password string."@),
            sink_view("auth-003"@, "Hardcoded password in login()"@, "python"@, "login"@, 259u32, Severity::High, "hardcoded-credentials"@, "login() called with a literal password string."@),
            method_sink_view("auth-004"@, "Spring @Value hardcoded"@, "java"@, "BCryptPasswordEncoder"@, "encode"@, 259u32, Severity::Medium, "hardcoded-credentials"@, "Ensure passwords encoded here are not hardcoded literals."@),
        ],
    }
}

/// The rules of the `secrets` pack.
pub open spec fn secrets_pack_view() -> RulePackView {
    RulePackView {
        name: "secrets"@,
        rules: seq![
            sink_view("sec-001"@, "print() Information Exposure"@, "python"@, "print"@, 200u32, Severity::Low, "information-exposure"@, "Printing tainted data may expose sensitive information."@),
            qualified_sink_view("sec-002"@, "logging.info Information Exposure"@, "python"@, "logging.info"@, 200u32, Severity::Low, "information-exposure"@, "Logging tainted data may expose sensitive information."@),
            qualified_sink_view("sec-003"@, "logging.debug Information Exposure"@, "python"@, "logging.debug"@, 200u32, Severity::Low, "information-exposure"@, "Logging sensitive data at DEBUG level can expose it in logs."@),
            method_sink_view("sec-004"@, "System.out.println Information Exposure"@, "java"@, "System"@, "out.println"@, 200u32, Severity::Low, "information-exposure"@, "Printing tainted data to stdout may expose sensitive information."@),
            method_sink_view("sec-005"@, "Logger.info Information Exposure"@, "java"@, "Logger"@, "info"@, 200u32, Severity::Low, "information-exposure"@, "Logging tainted data can leak sensitive information."@),
        ],
    }
}

/// The rules of the `ssrf` pack.
pub open spec fn ssrf_pack_view() -> RulePackView {
    RulePackView {
        name: "ssrf"@,
        rules: seq![
            qualified_sink_view("ssrf-001"@, "requests.get SSRF"@, "python"@, "requests.get"@, 918u32, Severity::High, "ssrf"@, "HTTP GET to a user-controlled URL enables SSRF."@),
            qualified_sink_view("ssrf-002"@, "requests.post SSRF"@, "python"@, "requests.post"@, 918u32, Severity::High, "ssrf"@, "HTTP POST to a user-controlled URL enables SSRF."@),
            qualified_sink_view("ssrf-003"@, "requests.request SSRF"@, "python"@, "requests.request"@, 918u32, Severity::High, "ssrf"@, "HTTP request to a user-controlled URL enables SSRF."@),
            qualified_sink_view("ssrf-004"@, "urllib.request.urlopen SSRF"@, "python"@, "urllib.request.urlopen"@, 918u32, Severity::High, "ssrf"@, "urlopen() on a user-controlled URL enables SSRF."@),
            qualified_sink_view("ssrf-005"@, "httpx.get SSRF"@, "python"@, "httpx.get"@, 918u32, Severity::High, "ssrf"@, "httpx.get() on user-controlled URL enables SSRF."@),
            method_sink_view("ssrf-006"@, "URL.openConnection SSRF"@, "java"@, "URL"@, "openConnection"@, 918u32, Severity::High, "ssrf"@, "Opening a connection to a user-controlled URL enables SSRF."@),
            method_sink_view("ssrf-007"@, "HttpURLConnection.connect SSRF"@, "java"@, "HttpURLConnection"@, "connect"@, 918u32, Severity::High, "ssrf"@, "Connecting to a user-controlled URL enables SSRF."@),
        ],
    }
}

/// The rules of the `command-injection` pack.
pub open spec fn command_injection_pack_view() -> RulePackView {
    RulePackView {
        name: "command-injection"@,
        rules: seq![
            qualified_sink_view("cmd-001"@, "os.system Command Injection"@, "python"@, "os.system"@, 78u32, Severity::Critical, "command-injection"@, "os.system() with untrusted input enables OS command injection."@),
            qualified_sink_view("cmd-002"@, "os.popen Command Injection"@, "python"@, "os.popen"@, 78u32, Severity::Critical, "command-injection"@, "os.popen() with untrusted input enables OS command injection."@),
            qualified_sink_view("cmd-003"@, "subprocess.run Command Injection"@, "python"@, "subprocess.run"@, 78u32, Severity::Critical, "command-injection"@, "subprocess.run() with shell=True and untrusted input is dangerous."@),
            qualified_sink_view("cmd-004"@, "subprocess.Popen Command Injection"@, "python"@, "subprocess.Popen"@, 78u32, Severity::Critical, "command-injection"@, "subprocess.Popen() with untrusted shell commands enables injection."@),
            qualified_sink_view("cmd-005"@, "subprocess.call Command Injection"@, "python"@, "subprocess.call"@, 78u32, Severity::Critical, "command-injection"@, "subprocess.call() with untrusted input enables command injection."@),
            qualified_sink_view("cmd-006"@, "subprocess.check_call Command Injection"@, "python"@, "subprocess.check_call"@, 78u32, Severity::Critical, "command-injection"@, "subprocess.check_call() with untrusted input enables injection."@),
            method_sink_view("cmd-007"@, "Runtime.exec Command Injection"@, "java"@, "Runtime"@, "exec"@, 78u32, Severity::Critical, "command-injection"@, "Runtime.exec() with untrusted input enables OS command injection."@),
            method_sink_view("cmd-008"@, "ProcessBuilder.start Command Injection"@, "java"@, "ProcessBuilder"@, "start"@, 78u32, Severity::Critical, "command-injection"@, "ProcessBuilder with untrusted commands enables injection."@),
            qualified_sanitizer_view("cmd-san-001"@, "shlex.quote sanitizer"@, "python"@, "shlex.quote"@, "command-injection"@),
            qualified_sanitizer_view("cmd-san-002"@, "shlex.split sanitizer"@, "python"@, "shlex.split"@, "command-injection"@),
        ],
    }
}

/// The rules of the `xxe` pack.
pub open spec fn xxe_pack_view() -> RulePackView {
    RulePackView {
        name: "xxe"@,
        rules: seq![
            qualified_sink_view("xxe-001"@, "xml.etree.ElementTree.parse XXE"@, "python"@, "xml.etree.ElementTree.parse"@, 611u32, Severity::High, "xxe"@, "ElementTree.parse() is vulnerable to XXE if the parser is not hardened."@),
            qualified_sink_view("xxe-002"@, "xml.etree.ElementTree.fromstring XXE"@, "python"@, "xml.etree.ElementTree.fromstring"@, 611u32, Severity::High, "xxe"@, "fromstring() may be vulnerable to XXE."@),
            qualified_sink_view("xxe-003"@, "lxml.etree.parse XXE"@, "python"@, "lxml.etree.parse"@, 611u32, Severity::High, "xxe"@, "lxml.etree.parse() without resolve_entities=False is vulnerable to XXE."@),
            qualified_sink_view("xxe-004"@, "minidom.parseString XXE"@, "python"@, "xml.dom.minidom.parseString"@, 611u32, Severity::High, "xxe"@, "minidom.parseString() does not disable external entities by default."@),
            method_sink_view("xxe-005"@, "DocumentBuilder.parse XXE"@, "java"@, "DocumentBuilder"@, "parse"@, 611u32, Severity::High, "xxe"@, "DocumentBuilder.parse() without disabling external entities."@),
            method_sink_view("xxe-006"@, "SAXParser.parse XXE"@, "java"@, "SAXParser"@, "parse"@, 611u32, Severity::High, "xxe"@, "SAXParser.parse() without disabling external entities."@),
            method_sink_view("xxe-007"@, "XMLReader.parse XXE"@, "java"@, "XMLReader"@, "parse"@, 611u32, Severity::High, "xxe"@, "XMLReader.parse() without external entity restrictions."@),
        ],
    }
}

/// The embedded `core` rule pack.
pub fn core_pack() -> (p: RulePack)
    ensures
        p@ == core_pack_view(),
{
    let rules = vec![
        src("core-src-001", "Generic user input", "any", "input", None, "input"),
        src("core-src-002", "Generic read", "any", "read", None, "input"),
        sink("core-sink-001", "eval() Code Injection", "python", "eval", 95u32, Severity::Critical, "code-injection", "Executing eval() on untrusted input enables arbitrary code execution."),
        sink("core-sink-002", "exec() Code Injection", "python", "exec", 94u32, Severity::Critical, "code-injection", "Executing exec() on untrusted input enables arbitrary code execution."),
        sink("core-sink-003", "compile() Code Injection", "python", "compile", 94u32, Severity::Critical, "code-injection", "Compiling and executing untrusted code strings is dangerous."),
        san("core-san-001", "html.escape sanitizer", "python", "html.escape", "xss"),
        san_qn("core-san-002", "markupsafe.escape sanitizer", "python", "markupsafe.escape", "xss"),
        san_qn("core-san-003", "bleach.clean sanitizer", "python", "bleach.clean", "xss"),
        san_qn("core-san-004", "urllib.parse.quote sanitizer", "python", "urllib.parse.quote", "ssrf"),
        san_qn("core-san-005", "urllib.parse.quote_plus sanitizer", "python", "urllib.parse.quote_plus", "ssrf"),
        san_qn("core-san-006", "shlex.quote sanitizer", "python", "shlex.quote", "command-injection"),
        san("core-san-007", "os.path.realpath sanitizer", "python", "os.path.realpath", "path-traversal"),
        san_qn("core-san-008", "os.path.abspath sanitizer", "python", "os.path.abspath", "path-traversal"),
    ];
    let p = RulePack { name: text("core"), rules };
    assert(p@.rules =~= core_pack_view().rules);
    p
}

/// The embedded `python` rule pack.
pub fn python_pack() -> (p: RulePack)
    ensures
        p@ == python_pack_view(),
{
    let rules = vec![
        src("py-src-001", "Python input() source", "python", "input", None, "input"),
        src_qn("py-src-002", "os.environ source", "python", "os.environ.get", None, "environment"),
        src_qn("py-src-003", "os.getenv source", "python", "os.getenv", None, "environment"),
        src_qn("py-src-004", "sys.argv source", "python", "sys.argv", None, "cli-arg"),
        src_qn("py-src-005", "flask request.args source", "python", "flask.request.args.get", None, "http-param"),
        src_qn("py-src-006", "flask request.form source", "python", "flask.request.form.get", None, "http-param"),
        src_qn("py-src-007", "flask request.json source", "python", "flask.request.get_json", None, "http-param"),
        src_qn("py-src-008", "django GET params source", "python", "django.request.GET.get", None, "http-param"),
        src_qn("py-src-009", "django POST params source", "python", "django.request.POST.get", None, "http-param"),
        src_qn("py-src-010", "subprocess stdout source", "python", "subprocess.check_output", None, "subprocess-output"),
        src_qn("py-src-011", "socket recv source", "python", "socket.recv", None, "socket-input"),
        src_qn("py-src-012", "socket recvfrom source", "python", "socket.recvfrom", None, "socket-input"),
        src_qn("py-src-013", "flask request.args dict", "python", "flask.request.args", None, "http-param"),
        src_qn("py-src-014", "flask request.form dict", "python", "flask.request.form", None, "http-param"),
        src_qn("py-src-015", "flask request.values", "python", "flask.request.values", None, "http-param"),
        src_qn("py-src-016", "flask request.json dict", "python", "flask.request.json", None, "http-param"),
        src_qn("py-src-017", "flask request.headers", "python", "flask.request.headers", None, "http-header"),
        src_qn("py-src-018", "flask request.cookies", "python", "flask.request.cookies", None, "http-cookie"),
        src_qn("py-src-019", "fastapi Request", "python", "fastapi.Request", None, "http-param"),
        src_qn("py-src-020", "starlette Request", "python", "starlette.Request", None, "http-param"),
        src_qn("py-src-021", "django GET dict", "python", "django.request.GET", None, "http-param"),
        src_qn("py-src-022", "django POST dict", "python", "django.request.POST", None, "http-param"),
        src_qn("py-src-023", "os.environ dict", "python", "os.environ", None, "environment"),
        src_qn("py-src-024", "argparse parse_args", "python", "argparse.ArgumentParser.parse_args", None, "cli-arg"),
        src_qn("py-src-025", "click option", "python", "click.option", None, "cli-arg"),
        src_qn("py-src-026", "click argument", "python", "click.argument", None, "cli-arg"),
        san_qn("py-san-001", "html.escape", "python", "html.escape", "xss"),
        san_qn("py-san-002", "re.escape", "python", "re.escape", "regex-injection"),
        san_qn("py-san-003", "urllib.parse.urlencode", "python", "urllib.parse.urlencode", "ssrf"),
    ];
    let p = RulePack { name: text("python"), rules };
    assert(p@.rules =~= python_pack_view().rules);
    p
}

/// The embedded `java` rule pack.
pub fn java_pack() -> (p: RulePack)
    ensures
        p@ == java_pack_view(),
{
    let rules = vec![
        src_method("java-src-001", "HttpServletRequest.getParameter", "java", "HttpServletRequest", "getParameter", None, "http-param"),
        src_method("java-src-002", "HttpServletRequest.getHeader", "java", "HttpServletRequest", "getHeader", None, "http-header"),
        src_method("java-src-003", "HttpServletRequest.getQueryString", "java", "HttpServletRequest", "getQueryString", None, "http-param"),
        src_method("java-src-004", "Scanner.nextLine source", "java", "Scanner", "nextLine", None, "input"),
        src_method("java-src-005", "Scanner.next source", "java", "Scanner", "next", None, "input"),
        src_method("java-src-006", "BufferedReader.readLine source", "java", "BufferedReader", "readLine", None, "input"),
        src_method("java-src-007", "System.getenv source", "java", "System", "getenv", None, "environment"),
        src_method("java-src-008", "System.console().readLine source", "java", "Console", "readLine", None, "input"),
        src_method("java-src-009", "ServletRequest.getParameter", "java", "ServletRequest", "getParameter", None, "http-param"),
        src_method("java-src-010", "ServletRequest.getParameterValues", "java", "ServletRequest", "getParameterValues", None, "http-param"),
        src_method("java-src-011", "HttpServletRequest.getCookies", "java", "HttpServletRequest", "getCookies", None, "http-cookie"),
        src_method("java-src-012", "HttpServletRequest.getParameterMap", "java", "HttpServletRequest", "getParameterMap", None, "http-param"),
        src_method("java-src-013", "HttpServletRequest.getInputStream", "java", "HttpServletRequest", "getInputStream", None, "http-param"),
        src_method("java-src-014", "HttpServletRequest.getReader", "java", "HttpServletRequest", "getReader", None, "http-param"),
        src("java-src-015", "Spring RequestParam annotation", "java", "RequestParam", None, "http-param"),
        src("java-src-016", "Spring PathVariable annotation", "java", "PathVariable", None, "http-param"),
        src("java-src-017", "Spring RequestBody annotation", "java", "RequestBody", None, "http-param"),
        san_method("java-san-001", "PreparedStatement.setString", "java", "PreparedStatement", "setString", "sql-injection"),
        san_method("java-san-002", "Path.normalize", "java", "Path", "normalize", "path-traversal"),
        san_method("java-san-003", "StringEscapeUtils.escapeHtml4", "java", "StringEscapeUtils", "escapeHtml4", "xss"),
        san_method("java-san-004", "StringEscapeUtils.escapeSql", "java", "StringEscapeUtils", "escapeSql", "sql-injection"),
        san_method("java-san-005", "ESAPI.encoder().encodeForHTML", "java", "Encoder", "encodeForHTML", "xss"),
        prop_method("java-prop-001", "java.net.URLDecoder.decode", "java", "URLDecoder", "decode"),
        prop_method("java-prop-002", "java.net.URLEncoder.encode", "java", "URLEncoder", "encode"),
        prop_method("java-prop-003", "java.lang.String.valueOf", "java", "String", "valueOf"),
        prop_method("java-prop-004", "java.util.Base64.Decoder.decode", "java", "Decoder", "decode"),
        prop_method("java-prop-005", "java.lang.Integer.parseInt", "java", "Integer", "parseInt"),
        prop_method("java-prop-006", "java.util.Enumeration.nextElement", "java", "Enumeration", "nextElement"),
        prop_method("java-prop-008", "java.sql.Connection.prepareStatement", "java", "Connection", "prepareStatement"),
        prop_method("java-prop-009", "java.sql.Connection.prepareCall", "java", "Connection", "prepareCall"),
        prop_method("java-prop-010", "java.sql.Connection.createStatement", "java", "Connection", "createStatement"),
        prop_method("java-prop-011", "java.lang.ProcessBuilder.ProcessBuilder", "java", "ProcessBuilder", "ProcessBuilder"),
        prop_method("java-prop-012", "java.lang.ProcessBuilder.command", "java", "ProcessBuilder", "command"),
    ];
    let p = RulePack { name: text("java"), rules };
    assert(p@.rules =~= java_pack_view().rules);
    p
}

/// The embedded `web` rule pack.
pub fn web_pack() -> (p: RulePack)
    ensures
        p@ == web_pack_view(),
{
    let rules = vec![
        sink("web-xss-001", "Flask render_template_string XSS", "python", "render_template_string", 79u32, Severity::High, "xss", "Rendering untrusted input in a template can cause XSS."),
        sink_qn("web-xss-002", "Django mark_safe XSS", "python", "django.utils.safestring.mark_safe", 79u32, Severity::High, "xss", "mark_safe() bypasses Django's auto-escaping."),
        sink_qn("web-xss-003", "Jinja2 Markup XSS", "python", "jinja2.Markup", 79u32, Severity::High, "xss", "Wrapping untrusted data in Markup() disables Jinja2 escaping."),
        sink_method("web-xss-004", "PrintWriter.println XSS", "java", "PrintWriter", "println", 79u32, Severity::High, "xss", "Writing untrusted data directly to HTTP response can cause XSS."),
        sink_method("web-xss-005", "HttpServletResponse.getWriter XSS", "java", "PrintWriter", "print", 79u32, Severity::High, "xss", "Writing untrusted data to response output can cause XSS."),
        sink("web-redir-001", "Flask redirect() Open Redirect", "python", "redirect", 601u32, Severity::Medium, "open-redirect", "Redirecting to a user-controlled URL is an open redirect vulnerability."),
        sink_method("web-redir-002", "HttpServletResponse.sendRedirect", "java", "HttpServletResponse", "sendRedirect", 601u32, Severity::Medium, "open-redirect", "sendRedirect() with untrusted input is an open redirect."),
        sink_method("web-csrf-001", "CSRF: missing token check", "java", "HttpServletRequest", "getParameter", 352u32, Severity::Medium, "csrf", "Ensure CSRF token is validated on state-changing requests."),
    ];
    let p = RulePack { name: text("web"), rules };
    assert(p@.rules =~= web_pack_view().rules);
    p
}

/// The embedded `database` rule pack.
pub fn database_pack() -> (p: RulePack)
    ensures
        p@ == database_pack_view(),
{
    let rules = vec![
        sink_method("db-sqli-001", "cursor.execute() SQL Injection", "python", "cursor", "execute", 89u32, Severity::Critical, "sql-injection", "Passing untrusted input to cursor.execute() enables SQL injection."),
        sink_method("db-sqli-002", "db.execute() SQL Injection", "python", "db", "execute", 89u32, Severity::Critical, "sql-injection", "String-format SQL queries are vulnerable to injection."),
        sink_method("db-sqli-003", "connection.execute() SQL Injection", "python", "connection", "execute", 89u32, Severity::Critical, "sql-injection", "Untrusted data in a SQL query enables injection attacks."),
        sink_qn("db-sqli-004", "SQLAlchemy text() SQL Injection", "python", "sqlalchemy.text", 89u32, Severity::High, "sql-injection", "Using sqlalchemy.text() with untrusted input can bypass ORM protections."),
        sink_method("db-sqli-005", "Statement.execute() SQL Injection", "java", "Statement", "execute", 89u32, Severity::Critical, "sql-injection", "Dynamic SQL via Statement.execute() is vulnerable to injection."),
        sink_method("db-sqli-006", "Statement.executeQuery() SQL Injection", "java", "Statement", "executeQuery", 89u32, Severity::Critical, "sql-injection", "Dynamic SQL queries are vulnerable to injection."),
        sink_method("db-sqli-007", "Statement.executeUpdate() SQL Injection", "java", "Statement", "executeUpdate", 89u32, Severity::Critical, "sql-injection", "String-concatenated SQL update statements are vulnerable."),
        sink_method("db-sqli-008", "EntityManager.createQuery SQL Injection", "java", "EntityManager", "createQuery", 89u32, Severity::High, "sql-injection", "JPQL queries built with untrusted input can be exploited."),
    ];
    let p = RulePack { name: text("database"), rules };
    assert(p@.rules =~= database_pack_view().rules);
    p
}

/// The embedded `filesystem` rule pack.
pub fn filesystem_pack() -> (p: RulePack)
    ensures
        p@ == filesystem_pack_view(),
{
    let rules = vec![
        sink("fs-trav-001", "open() Path Traversal", "python", "open", 22u32, Severity::High, "path-traversal", "Opening files with user-controlled paths can traverse directories."),
        sink_qn("fs-trav-002", "os.path.join Path Traversal", "python", "os.path.join", 22u32, Severity::High, "path-traversal", "os.path.join with untrusted components enables path traversal."),
        sink_qn("fs-trav-003", "pathlib.Path Path Traversal", "python", "pathlib.Path", 22u32, Severity::High, "path-traversal", "Constructing paths from untrusted input enables traversal."),
        sink_qn("fs-trav-004", "shutil.copy Path Traversal", "python", "shutil.copy", 22u32, Severity::High, "path-traversal", "Copying files with untrusted paths can overwrite arbitrary files."),
        sink_method("fs-trav-005", "FileInputStream Path Traversal", "java", "FileInputStream", "FileInputStream", 22u32, Severity::High, "path-traversal", "Opening files via FileInputStream with untrusted paths."),
        sink_method("fs-trav-006", "FileReader Path Traversal", "java", "FileReader", "FileReader", 22u32, Severity::High, "path-traversal", "Opening files via FileReader with untrusted paths."),
        sink_method("fs-trav-007", "File.getCanonicalPath check", "java", "File", "getCanonicalPath", 22u32, Severity::Medium, "path-traversal", "Canonical path should be validated against a safe base directory."),
        san_qn("fs-san-001", "os.path.realpath sanitizer", "python", "os.path.realpath", "path-traversal"),
        san_method("fs-san-002", "Path.normalize sanitizer", "java", "Path", "normalize", "path-traversal"),
        san_method("fs-san-003", "Path.toRealPath sanitizer", "java", "Path", "toRealPath", "path-traversal"),
    ];
    let p = RulePack { name: text("filesystem"), rules };
    assert(p@.rules =~= filesystem_pack_view().rules);
    p
}

/// The embedded `deserialization` rule pack.
pub fn deserialization_pack() -> (p: RulePack)
    ensures
        p@ == deserialization_pack_view(),
{
    let rules = vec![
        sink_qn("deser-001", "pickle.loads Insecure Deserialization", "python", "pickle.loads", 502u32, Severity::Critical, "deserialization", "pickle.loads() on untrusted data allows arbitrary code execution."),
        sink_qn("deser-002", "pickle.load Insecure Deserialization", "python", "pickle.load", 502u32, Severity::Critical, "deserialization", "pickle.load() on untrusted data allows arbitrary code execution."),
        sink_qn("deser-003", "yaml.load Insecure Deserialization", "python", "yaml.load", 502u32, Severity::Critical, "deserialization", "yaml.load() without Loader=SafeLoader can execute arbitrary Python."),
        sink_qn("deser-004", "marshal.loads Insecure Deserialization", "python", "marshal.loads", 502u32, Severity::Critical, "deserialization", "marshal.loads() on untrusted data is dangerous."),
        sink_qn("deser-005", "jsonpickle.decode Insecure Deserialization", "python", "jsonpickle.decode", 502u32, Severity::Critical, "deserialization", "jsonpickle.decode() allows arbitrary object construction."),
        sink_method("deser-006", "ObjectInputStream.readObject", "java", "ObjectInputStream", "readObject", 502u32, Severity::Critical, "deserialization", "Java deserialization via readObject() with untrusted data."),
        sink_method("deser-007", "XStream.fromXML", "java", "XStream", "fromXML", 502u32, Severity::Critical, "deserialization", "XStream deserialization of untrusted XML can execute code."),
    ];
    let p = RulePack { name: text("deserialization"), rules };
    assert(p@.rules =~= deserialization_pack_view().rules);
    p
}

/// The embedded `cryptography` rule pack.
pub fn cryptography_pack() -> (p: RulePack)
    ensures
        p@ == cryptography_pack_view(),
{
    let rules = vec![
        sink_qn("crypto-001", "hashlib.md5 Weak Hash", "python", "hashlib.md5", 327u32, Severity::Medium, "weak-cryptography", "MD5 is cryptographically broken; use SHA-256 or better."),
        sink_qn("crypto-002", "hashlib.sha1 Weak Hash", "python", "hashlib.sha1", 327u32, Severity::Medium, "weak-cryptography", "SHA-1 is deprecated for security use; use SHA-256 or better."),
        sink_method("crypto-003", "Java MD5 Weak Hash", "java", "MessageDigest", "getInstance", 327u32, Severity::Medium, "weak-cryptography", "Verify that MD5 or SHA-1 is not passed to MessageDigest.getInstance()."),
        sink_method("crypto-004", "DES Weak Cipher", "java", "Cipher", "getInstance", 327u32, Severity::High, "weak-cryptography", "DES and 3DES are considered insecure; use AES-256."),
        sink_qn("crypto-005", "Python DES usage", "python", "Crypto.Cipher.DES.new", 327u32, Severity::High, "weak-cryptography", "DES cipher is insecure; prefer AES."),
        sink_qn("crypto-006", "smtplib.SMTP cleartext", "python", "smtplib.SMTP", 319u32, Severity::High, "cleartext-transmission", "smtplib.SMTP() uses cleartext; use SMTP_SSL or starttls()."),
        sink_qn("crypto-007", "ftplib.FTP cleartext", "python", "ftplib.FTP", 319u32, Severity::High, "cleartext-transmission", "FTP transmits credentials in cleartext; use FTPS."),
        sink_method("crypto-008", "HttpURLConnection cleartext", "java", "HttpURLConnection", "openConnection", 319u32, Severity::Medium, "cleartext-transmission", "HTTP connections are unencrypted; use HTTPS."),
    ];
    let p = RulePack { name: text("cryptography"), rules };
    assert(p@.rules =~= cryptography_pack_view().rules);
    p
}

/// The embedded `authentication` rule pack.
pub fn authentication_pack() -> (p: RulePack)
    ensures
        p@ == authentication_pack_view(),
{
    let rules = vec![
        sink("auth-001", "Hardcoded password in connect()", "python", "connect", 798u32, Severity::Critical, "hardcoded-credentials", "Database connect() with a hardcoded password."),
        sink_method("auth-002", "DriverManager.getConnection hardcoded", "java", "DriverManager", "getConnection", 798u32, Severity::Critical, "hardcoded-credentials", "JDBC connection with hardcoded password string."),
        sink("auth-003", "Hardcoded password in login()", "python", "login", 259u32, Severity::High, "hardcoded-credentials", "login() called with a literal password string."),
        sink_method("auth-004", "Spring @Value hardcoded", "java", "BCryptPasswordEncoder", "encode", 259u32, Severity::Medium, "hardcoded-credentials", "Ensure passwords encoded here are not hardcoded literals."),
    ];
    let p = RulePack { name: text("authentication"), rules };
    assert(p@.rules =~= authentication_pack_view().rules);
    p
}

/// The embedded `secrets` rule pack.
pub fn secrets_pack() -> (p: RulePack)
    ensures
        p@ == secrets_pack_view(),
{
    let rules = vec![
        sink("sec-001", "print() Information Exposure", "python", "print", 200u32, Severity::Low, "information-exposure", "Printing tainted data may expose sensitive information."),
        sink_qn("sec-002", "logging.info Information Exposure", "python", "logging.info", 200u32, Severity::Low, "information-exposure", "Logging tainted data may expose sensitive information."),
        sink_qn("sec-003", "logging.debug Information Exposure", "python", "logging.debug", 200u32, Severity::Low, "information-exposure", "Logging sensitive data at DEBUG level can expose it in logs."),
        sink_method("sec-004", "System.out.println Information Exposure", "java", "System", "out.println", 200u32, Severity::Low, "information-exposure", "Printing tainted data to stdout may expose sensitive information."),
        sink_method("sec-005", "Logger.info Information Exposure", "java", "Logger", "info", 200u32, Severity::Low, "information-exposure", "Logging tainted data can leak sensitive information."),
    ];
    let p = RulePack { name: text("secrets"), rules };
    assert(p@.rules =~= secrets_pack_view().rules);
    p
}

/// The embedded `ssrf` rule pack.
pub fn ssrf_pack() -> (p: RulePack)
    ensures
        p@ == ssrf_pack_view(),
{
    let rules = vec![
        sink_qn("ssrf-001", "requests.get SSRF", "python", "requests.get", 918u32, Severity::High, "ssrf", "HTTP GET to a user-controlled URL enables SSRF."),
        sink_qn("ssrf-002", "requests.post SSRF", "python", "requests.post", 918u32, Severity::High, "ssrf", "HTTP POST to a user-controlled URL enables SSRF."),
        sink_qn("ssrf-003", "requests.request SSRF", "python", "requests.request", 918u32, Severity::High, "ssrf", "HTTP request to a user-controlled URL enables SSRF."),
        sink_qn("ssrf-004", "urllib.request.urlopen SSRF", "python", "urllib.request.urlopen", 918u32, Severity::High, "ssrf", "urlopen() on a user-controlled URL enables SSRF."),
        sink_qn("ssrf-005", "httpx.get SSRF", "python", "httpx.get", 918u32, Severity::High, "ssrf", "httpx.get() on user-controlled URL enables SSRF."),
        sink_method("ssrf-006", "URL.openConnection SSRF", "java", "URL", "openConnection", 918u32, Severity::High, "ssrf", "Opening a connection to a user-controlled URL enables SSRF."),
        sink_method("ssrf-007", "HttpURLConnection.connect SSRF", "java", "HttpURLConnection", "connect", 918u32, Severity::High, "ssrf", "Connecting to a user-controlled URL enables SSRF."),
    ];
    let p = RulePack { name: text("ssrf"), rules };
    assert(p@.rules =~= ssrf_pack_view().rules);
    p
}

/// The embedded `command-injection` rule pack.
pub fn command_injection_pack() -> (p: RulePack)
    ensures
        p@ == command_injection_pack_view(),
{
    let rules = vec![
        sink_qn("cmd-001", "os.system Command Injection", "python", "os.system", 78u32, Severity::Critical, "command-injection", "os.system() with untrusted input enables OS command injection."),
        sink_qn("cmd-002", "os.popen Command Injection", "python", "os.popen", 78u32, Severity::Critical, "command-injection", "os.popen() with untrusted input enables OS command injection."),
        sink_qn("cmd-003", "subprocess.run Command Injection", "python", "subprocess.run", 78u32, Severity::Critical, "command-injection", "subprocess.run() with shell=True and untrusted input is dangerous."),
        sink_qn("cmd-004", "subprocess.Popen Command Injection", "python", "subprocess.Popen", 78u32, Severity::Critical, "command-injection", "subprocess.Popen() with untrusted shell commands enables injection."),
        sink_qn("cmd-005", "subprocess.call Command Injection", "python", "subprocess.call", 78u32, Severity::Critical, "command-injection", "subprocess.call() with untrusted input enables command injection."),
        sink_qn("cmd-006", "subprocess.check_call Command Injection", "python", "subprocess.check_call", 78u32, Severity::Critical, "command-injection", "subprocess.check_call() with untrusted input enables injection."),
        sink_method("cmd-007", "Runtime.exec Command Injection", "java", "Runtime", "exec", 78u32, Severity::Critical, "command-injection", "Runtime.exec() with untrusted input enables OS command injection."),
        sink_method("cmd-008", "ProcessBuilder.start Command Injection", "java", "ProcessBuilder", "start", 78u32, Severity::Critical, "command-injection", "ProcessBuilder with untrusted commands enables injection."),
        san_qn("cmd-san-001", "shlex.quote sanitizer", "python", "shlex.quote", "command-injection"),
        san_qn("cmd-san-002", "shlex.split sanitizer", "python", "shlex.split", "command-injection"),
    ];
    let p = RulePack { name: text("command-injection"), rules };
    assert(p@.rules =~= command_injection_pack_view().rules);
    p
}

/// The embedded `xxe` rule pack.
pub fn xxe_pack() -> (p: RulePack)
    ensures
        p@ == xxe_pack_view(),
{
    let rules = vec![
        sink_qn("xxe-001", "xml.etree.ElementTree.parse XXE", "python", "xml.etree.ElementTree.parse", 611u32, Severity::High, "xxe", "ElementTree.parse() is vulnerable to XXE if the parser is not hardened."),
        sink_qn("xxe-002", "xml.etree.ElementTree.fromstring XXE", "python", "xml.etree.ElementTree.fromstring", 611u32, Severity::High, "xxe", "fromstring() may be vulnerable to XXE."),
        sink_qn("xxe-003", "lxml.etree.parse XXE", "python", "lxml.etree.parse", 611u32, Severity::High, "xxe", "lxml.etree.parse() without resolve_entities=False is vulnerable to XXE."),
        sink_qn("xxe-004", "minidom.parseString XXE", "python", "xml.dom.minidom.parseString", 611u32, Severity::High, "xxe", "minidom.parseString() does not disable external entities by default."),
        sink_method("xxe-005", "DocumentBuilder.parse XXE", "java", "DocumentBuilder", "parse", 611u32, Severity::High, "xxe", "DocumentBuilder.parse() without disabling external entities."),
        sink_method("xxe-006", "SAXParser.parse XXE", "java", "SAXParser", "parse", 611u32, Severity::High, "xxe", "SAXParser.parse() without disabling external entities."),
        sink_method("xxe-007", "XMLReader.parse XXE", "java", "XMLReader", "parse", 611u32, Severity::High, "xxe", "XMLReader.parse() without external entity restrictions."),
    ];
    let p = RulePack { name: text("xxe"), rules };
    assert(p@.rules =~= xxe_pack_view().rules);
    p
}

/// The views of a sequence of packs.
pub open spec fn pack_views(packs: Seq<RulePack>) -> Seq<RulePackView> {
    packs.map_values(|p: RulePack| p@)
}

/// Every embedded pack, in registration order.
pub open spec fn all_packs_view() -> Seq<RulePackView> {
    seq![
        core_pack_view(),
        python_pack_view(),
        java_pack_view(),
        web_pack_view(),
        database_pack_view(),
        filesystem_pack_view(),
        deserialization_pack_view(),
        cryptography_pack_view(),
        authentication_pack_view(),
        secrets_pack_view(),
        ssrf_pack_view(),
        command_injection_pack_view(),
        xxe_pack_view(),
    ]
}

/// Return one instance of every embedded rule pack.
pub fn all_packs() -> (v: Vec<RulePack>)
    ensures
        pack_views(v@) == all_packs_view(),
{
    let v = vec![
        core_pack(),
        python_pack(),
        java_pack(),
        web_pack(),
        database_pack(),
        filesystem_pack(),
        deserialization_pack(),
        cryptography_pack(),
        authentication_pack(),
        secrets_pack(),
        ssrf_pack(),
        command_injection_pack(),
        xxe_pack(),
    ];
    assert(pack_views(v@) =~= all_packs_view());
    v
}

/// Loads each pack of `packs` into `registry`, in order.
pub fn load_all(registry: &mut RuleRegistry, packs: &Vec<RulePack>)
    ensures
        final(registry)@ == old(registry)@.load_packs(pack_views(packs@)),
{
    let ghost start = registry@;
    let ghost pv = pack_views(packs@);
    let mut i: usize = 0;
    while i < packs.len()
        invariant
            i <= packs@.len(),
            pv == pack_views(packs@),
            registry@ == start.load_packs(pv.take(i as int)),
        decreases packs.len() - i,
    {
        assert(pv.take(i + 1int).drop_last() =~= pv.take(i as int));
        registry.load(&packs[i]);
        i = i + 1;
    }
    assert(pv.take(pv.len() as int) =~= pv);
}

/// Build a `RuleRegistry` from every embedded pack.
pub fn full_registry() -> (r: RuleRegistry)
    ensures
        r@ == RegistryView::empty().load_packs(all_packs_view()),
{
    let mut registry = RuleRegistry::new();
    let packs = all_packs();
    load_all(&mut registry, &packs);
    registry
}

} // verus!
