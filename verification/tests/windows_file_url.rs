use std::path::PathBuf;

use oxc_node::file_url::{path_to_url, url_to_path};

fn url_path_buf(url: &str) -> Option<PathBuf> {
    url_to_path(url).map(PathBuf::from)
}

#[test]
fn windows_drive_url_parses() {
    assert_eq!(url_path_buf("file:///C:/a/b.ts"), Some(PathBuf::from("C:/a/b.ts")));
}

#[test]
fn windows_drive_path_generates() {
    assert_eq!(path_to_url("C:\\a\\b.ts"), "file:///C:/a/b.ts");
}

#[test]
fn windows_unc_url_parses_to_unc_path() {
    assert_eq!(
        url_path_buf("file://server/share/dir/module.ts"),
        Some(PathBuf::from("\\\\server\\share\\dir\\module.ts"))
    );
}

#[test]
fn windows_unc_url_without_path_parses_to_server_root() {
    assert_eq!(url_path_buf("file://server"), Some(PathBuf::from("\\\\server\\")));
}

#[test]
fn windows_unc_url_decodes_escapes() {
    assert_eq!(
        url_path_buf("file://server/share/my%20dir/x.ts"),
        Some(PathBuf::from("\\\\server\\share\\my dir\\x.ts"))
    );
    // The authority decodes allowed escapes: `%C3%BD` is the IDNA form
    // of `ý`, so the host is the Unicode name, like `fileURLToPath`.
    assert_eq!(
        url_path_buf("file://my%C3%BDserver/share/x.ts"),
        Some(PathBuf::from("\\\\myýserver\\share\\x.ts"))
    );
}

#[test]
fn windows_query_and_fragment_are_not_part_of_the_path() {
    // Node validates and decodes the pathname only; the suffix is module
    // identity, dropped here and re-attached by `create_resolve`.
    assert_eq!(
        url_path_buf("file://server/share/a.ts?key=%2F"),
        Some(PathBuf::from("\\\\server\\share\\a.ts"))
    );
    assert_eq!(url_path_buf("file:///C:/a.ts#frag%5C"), Some(PathBuf::from("C:/a.ts")));
}

#[test]
fn windows_forbidden_host_escapes_are_rejected() {
    // The URL parser rejects an authority whose escapes decode to
    // forbidden host code points (ERR_INVALID_URL); decoding them here
    // would silently move a path segment into the server name.
    assert_eq!(url_path_buf("file://server%5Cother/share/x.ts"), None);
    assert_eq!(url_path_buf("file://server%2Fother/share/x.ts"), None);
    assert_eq!(url_path_buf("file://my%20server/share/x.ts"), None);
    assert_eq!(url_path_buf("file://ser%ver/share/x.ts"), None);
}

#[test]
fn windows_forbidden_host_characters_are_rejected() {
    // Raw forbidden characters meet the same rejection; Node passes the
    // specifier to the hook but its parser refuses the authority.
    for host in [
        "user@server",
        "server:80",
        "server|other",
        "ser<ver",
        "ser>ver",
        "ser^ver",
        "ser[ver",
        "ser]ver",
        "my server",
    ] {
        assert_eq!(url_path_buf(&format!("file://{host}/share/x.ts")), None, "{host}");
    }
    // A raw `"` and bracketed IPv6 literals are accepted, matching
    // `fileURLToPath`; brackets around anything that is not IPv6 are
    // rejected like Node's URL parser.
    assert_eq!(
        url_path_buf("file://ser\"ver/share/x.ts"),
        Some(PathBuf::from("\\\\ser\"ver\\share\\x.ts"))
    );
    assert_eq!(url_path_buf("file://[foo]/share/x.ts"), None);
    assert_eq!(
        url_path_buf("file://[::1]/share/x.ts"),
        Some(PathBuf::from("\\\\[::1]\\share\\x.ts"))
    );
    assert_eq!(
        url_path_buf("file://[2001:db8::1]/share/x.ts"),
        Some(PathBuf::from("\\\\[2001:db8::1]\\share\\x.ts"))
    );
}

#[test]
fn windows_unc_path_generates_authority_url() {
    assert_eq!(path_to_url("\\\\server\\share\\x.ts"), "file://server/share/x.ts");
    // Forward-slash UNC spellings are accepted as well.
    assert_eq!(path_to_url("//server/share/x.ts"), "file://server/share/x.ts");
    // The host is percent-encoded for the authority.
    assert_eq!(path_to_url("\\\\my server\\share\\x.ts"), "file://my%20server/share/x.ts");
}

#[test]
fn windows_unc_path_escapes_url_significant_characters() {
    // A literal `%` in a file name must not be read back as an escape.
    assert_eq!(path_to_url("\\\\server\\share\\a%20b.ts"), "file://server/share/a%2520b.ts");
    // Neither should `#`, which would start a fragment.
    assert_eq!(path_to_url("\\\\server\\share\\a#b.ts"), "file://server/share/a%23b.ts");
    // Spaces and non-ASCII bytes encode the way `pathToFileURL` encodes.
    assert_eq!(path_to_url("\\\\server\\share\\a b.ts"), "file://server/share/a%20b.ts");
    assert_eq!(path_to_url("\\\\server\\share\\õ.ts"), "file://server/share/%C3%B5.ts");
}

#[test]
fn windows_escaped_unc_path_round_trips() {
    let url = path_to_url("\\\\server\\share\\a%20b.ts");
    assert_eq!(url, "file://server/share/a%2520b.ts");
    assert_eq!(url_path_buf(&url), Some(PathBuf::from("\\\\server\\share\\a%20b.ts")));
}

#[test]
fn windows_punycode_host_decodes_to_unicode() {
    // `pathToFileURL('\\\\mýserver\\share\\x')` writes the punycode
    // authority; `fileURLToPath` maps it back through IDNA to-Unicode.
    assert_eq!(
        url_path_buf("file://xn--mserver-v2a/share/x.ts"),
        Some(PathBuf::from("\\\\mýserver\\share\\x.ts"))
    );
    // An already-Unicode host is left alone.
    assert_eq!(
        url_path_buf("file://m%C3%BDserver/share/x.ts"),
        Some(PathBuf::from("\\\\mýserver\\share\\x.ts"))
    );
    // A label that is not valid punycode, decodes to an all-ASCII name
    // (not a valid U-label, RFC 5890), or decodes to characters
    // DISALLOWED in every IDNA version (controls, non-characters) is
    // kept literal — `domainToUnicode` never decodes these either.
    assert_eq!(
        url_path_buf("file://xn--!!!/share/x.ts"),
        Some(PathBuf::from("\\\\xn--!!!\\share\\x.ts"))
    );
    assert_eq!(
        url_path_buf("file://xn--a/share/x.ts"),
        Some(PathBuf::from("\\\\xn--a\\share\\x.ts"))
    );
    assert_eq!(
        url_path_buf("file://xn--abc-/share/x.ts"),
        Some(PathBuf::from("\\\\xn--abc-\\share\\x.ts"))
    );
    // ASCII hosts take the fast path.
    assert_eq!(
        url_path_buf("file://server/share/x.ts"),
        Some(PathBuf::from("\\\\server\\share\\x.ts"))
    );
    // Dots between labels survive the conversion.
    assert_eq!(
        url_path_buf("file://xn--mserver-v2a.example.com/share/x.ts"),
        Some(PathBuf::from("\\\\mýserver.example.com\\share\\x.ts"))
    );
    assert_eq!(
        url_path_buf("file://server.example.com/share/x.ts"),
        Some(PathBuf::from("\\\\server.example.com\\share\\x.ts"))
    );
}

#[test]
fn windows_hosts_pass_through_uts46_mapping() {
    // UTS #46 canonicalization, like the URL parser applies it:
    // fullwidth and compatibility characters fold to their ASCII forms
    // before the localhost special case and UNC mapping.
    assert_eq!(
        url_path_buf("file://ｌｏｃａｌｈｏｓｔ/C:/app.js"),
        Some(PathBuf::from("C:/app.js"))
    );
    assert_eq!(
        url_path_buf("file://ｓｅｒｖｅｒ/share/x.ts"),
        Some(PathBuf::from("\\\\server\\share\\x.ts"))
    );
    assert_eq!(url_path_buf("file://℡/share/x.ts"), Some(PathBuf::from("\\\\tel\\share\\x.ts")));
}

#[test]
fn windows_mapping_interactions() {
    // UTS #46 runs before IPv4 classification: fullwidth digits map
    // first, and a mapped address that is out of range is rejected.
    assert_eq!(
        url_path_buf("file://１２７.１/share/app.js"),
        Some(PathBuf::from("\\\\127.0.0.1\\share\\app.js"))
    );
    assert_eq!(url_path_buf("file://２５６.１/share/x.ts"), None);
    // A host whose mapping produces a forbidden character is rejected.
    assert_eq!(url_path_buf("file://％/share/x.ts"), None);
    // Disallowed characters and an empty mapping are rejected too; only
    // undecodable xn-- labels keep their literal spelling, per label —
    // a sibling label's failure still rejects the host.
    assert_eq!(url_path_buf("file://%E2%80%8D/share/x.ts"), None);
    assert_eq!(url_path_buf("file://%C2%AD/share/x.ts"), None);
    assert_eq!(url_path_buf("file://xn--1.%E2%80%8D/share/x.ts"), None);
    assert_eq!(url_path_buf("file://%C3%A9a%E2%80%8D/share/x.ts"), None);
    assert_eq!(
        url_path_buf("file://xn--1/share/x.ts"),
        Some(PathBuf::from("\\\\xn--1\\share\\x.ts"))
    );
    // A leading pipe drive folds without any dot segment present, while
    // a pipe in a later segment stays literal.
    assert_eq!(
        url_path_buf("file://server/C|/share/app.js"),
        Some(PathBuf::from("\\\\server\\C:\\share\\app.js"))
    );
    assert_eq!(
        url_path_buf("file://server/share/C|/x.ts"),
        Some(PathBuf::from("\\\\server\\share\\C|\\x.ts"))
    );
}

#[test]
fn windows_encoded_separators_are_rejected() {
    // `fileURLToPath` refuses `%5C`/`%2F` with ERR_INVALID_FILE_URL_PATH;
    // decoding them into real separators would let a URL text denote a
    // file outside the directory its path names.
    for escape in ["%5C", "%5c", "%2F", "%2f"] {
        assert_eq!(
            url_path_buf(&format!("file://server/share/dir{escape}..{escape}secret.ts")),
            None,
            "{escape} must be rejected"
        );
    }
    assert_eq!(url_path_buf("file:///C:/a%5cb.ts"), None);
    assert_eq!(url_path_buf("file:///C:/a%2Fb.ts"), None);
    // A valid, unrelated escape is unaffected.
    assert_eq!(
        url_path_buf("file://server/share/a%20b.ts"),
        Some(PathBuf::from("\\\\server\\share\\a b.ts"))
    );
}

#[test]
fn windows_verbatim_prefix_is_ignored() {
    // Canonicalized paths carry the extended-length prefix; `pathToFileURL`
    // maps `\\?\UNC\server\share\…` and `\\?\C:\…` to the ordinary forms.
    assert_eq!(path_to_url("\\\\?\\UNC\\server\\share\\x.ts"), "file://server/share/x.ts");
    assert_eq!(path_to_url("\\\\?\\C:\\x.ts"), "file:///C:/x.ts");
    assert_eq!(path_to_url("\\\\server\\share\\x.ts"), "file://server/share/x.ts");
}

#[test]
fn windows_dot_segments_are_normalized() {
    // The URL parser normalizes dot segments before `fileURLToPath`
    // runs; `..` clamps at the share root and never crosses the drive.
    assert_eq!(
        url_path_buf("file://server/./share/x.ts"),
        Some(PathBuf::from("\\\\server\\share\\x.ts"))
    );
    assert_eq!(
        url_path_buf("file://server/a/../share/x.ts"),
        Some(PathBuf::from("\\\\server\\share\\x.ts"))
    );
    assert_eq!(
        url_path_buf("file://server/../share/x.ts"),
        Some(PathBuf::from("\\\\server\\share\\x.ts"))
    );
    assert_eq!(url_path_buf("file:///C:/a/../b.ts"), Some(PathBuf::from("C:/b.ts")));
    assert_eq!(url_path_buf("file:///C:/../x.ts"), Some(PathBuf::from("C:/x.ts")));
    // A trailing dot segment keeps the trailing slash.
    assert_eq!(
        url_path_buf("file://server/share/."),
        Some(PathBuf::from("\\\\server\\share\\"))
    );
    // Encoded dot segments normalize the same way — %2e is a dot in the
    // URL parser — while %2E inside a longer segment is a filename char.
    assert_eq!(
        url_path_buf("file://server/old/%2E%2E/new/x.ts"),
        Some(PathBuf::from("\\\\server\\new\\x.ts"))
    );
    assert_eq!(
        url_path_buf("file://server/old/.%2e/new/x.ts"),
        Some(PathBuf::from("\\\\server\\new\\x.ts"))
    );
    assert_eq!(
        url_path_buf("file://server/share/%2E"),
        Some(PathBuf::from("\\\\server\\share\\"))
    );
    assert_eq!(
        url_path_buf("file://server/a%2Eb/x.ts"),
        Some(PathBuf::from("\\\\server\\a.b\\x.ts"))
    );
    // A bare encoded double dot is still a double-dot segment: it pops
    // the share, exactly like the literal spelling.
    assert_eq!(
        url_path_buf("file://server/share/%2E%2E/x.ts"),
        Some(PathBuf::from("\\\\server\\x.ts"))
    );
    // Backslashes are URL separators too, so dot segments written with
    // them normalize the same way.
    assert_eq!(
        url_path_buf("file://server\\a\\..\\share\\x.ts"),
        Some(PathBuf::from("\\\\server\\share\\x.ts"))
    );
    assert_eq!(url_path_buf("file:///C:\\a\\..\\b.ts"), Some(PathBuf::from("C:/b.ts")));
    assert_eq!(
        url_path_buf("file://server\\share\\."),
        Some(PathBuf::from("\\\\server\\share\\"))
    );
    // A decoded `?` is rejected outright: the resolver can keep a `#`
    // literal but not a `?`, and `?` is illegal in Windows file names.
    assert_eq!(url_path_buf("file://server/share/coll%3Fide.ts"), None);
    assert_eq!(url_path_buf("file:///C:/coll%3Fide.ts"), None);
    // A pipe-form drive segment folds to the colon spelling and `..`
    // cannot pop it, exactly like the URL parser's ordering.
    assert_eq!(
        url_path_buf("file://server/C|/../share/app.js"),
        Some(PathBuf::from("\\\\server\\C:\\share\\app.js"))
    );
    assert_eq!(url_path_buf("file://server/C|/.."), Some(PathBuf::from("\\\\server\\C:\\")));
    assert_eq!(url_path_buf("file:///C|/../x.ts"), Some(PathBuf::from("C:/x.ts")));
    // A real query is still module identity, not part of the path.
    assert_eq!(
        url_path_buf("file://server/share/a.ts?key=%2F"),
        Some(PathBuf::from("\\\\server\\share\\a.ts"))
    );
}

#[test]
fn windows_ipv6_host_keeps_its_authority_syntax() {
    // `pathToFileURL` emits bracketed IPv6 authorities verbatim and
    // canonicalized; percent-encoding the brackets is ERR_INVALID_URL in
    // Node.
    assert_eq!(path_to_url("\\\\[::1]\\share\\x.ts"), "file://[::1]/share/x.ts");
    assert_eq!(path_to_url("\\\\[0:0:0:0:0:0:0:1]\\share\\x.ts"), "file://[::1]/share/x.ts");
    assert_eq!(
        url_path_buf("file://[0:0:0:0:0:0:0:1]/share/x.ts"),
        Some(PathBuf::from("\\\\[::1]\\share\\x.ts"))
    );
    // IPv4-mapped addresses serialize as plain hex groups, not dotted quad.
    assert_eq!(
        url_path_buf("file://[::ffff:192.168.0.1]/share/x.ts"),
        Some(PathBuf::from("\\\\[::ffff:c0a8:1]\\share\\x.ts"))
    );
    assert_eq!(
        path_to_url("\\\\[::ffff:192.168.0.1]\\share\\x.ts"),
        "file://[::ffff:c0a8:1]/share/x.ts"
    );
    assert_eq!(
        path_to_url("\\\\[2001:db8::1]\\share\\x.ts"),
        "file://[2001:db8::1]/share/x.ts"
    );
}

#[test]
fn windows_backslashes_are_url_separators() {
    // The URL parser normalizes `\` to `/` in special schemes, so a
    // specifier written with Windows separators still splits into
    // authority and path.
    assert_eq!(
        url_path_buf("file://server\\share\\x.ts"),
        Some(PathBuf::from("\\\\server\\share\\x.ts"))
    );
    assert_eq!(
        url_path_buf("file://server\\share/x.ts"),
        Some(PathBuf::from("\\\\server\\share\\x.ts"))
    );
    // Encoded separators are still rejected in this spelling.
    assert_eq!(url_path_buf("file://server\\share%5C..%5Csecret.ts"), None);
}

#[test]
fn windows_localhost_authority_maps_to_drive_path() {
    assert_eq!(url_path_buf("file://localhost/C:/a.ts"), Some(PathBuf::from("C:/a.ts")));
    // The parser canonicalizes the authority before `fileURLToPath` sees
    // it, so escapes and case do not defeat the localhost special case.
    assert_eq!(url_path_buf("file://%6cocalhost/C:/a.ts"), Some(PathBuf::from("C:/a.ts")));
    assert_eq!(url_path_buf("file://LOCALHOST/C:/a.ts"), Some(PathBuf::from("C:/a.ts")));
    // The localhost form still has to name a drive; the `c|` spelling
    // normalizes only with a separator (or nothing) after the pipe —
    // `C|foo.ts` is rejected — and only a literal `:` survives decoding.
    assert_eq!(url_path_buf("file://localhost/c|/a.ts"), Some(PathBuf::from("c:/a.ts")));
    assert_eq!(url_path_buf("file://localhost/c|"), Some(PathBuf::from("c:")));
    assert_eq!(url_path_buf("file://localhost/c|foo.ts"), None);
    assert_eq!(url_path_buf("file://localhost/%43%3A/a.ts"), Some(PathBuf::from("C:/a.ts")));
    assert_eq!(url_path_buf("file://localhost/C%3A/a.ts"), Some(PathBuf::from("C:/a.ts")));
    assert_eq!(url_path_buf("file://localhost/c%7C/a.ts"), None);
    assert_eq!(url_path_buf("file://localhost/share/a.ts"), None);
    assert_eq!(url_path_buf("file://localhost/"), None);
}

#[test]
fn windows_scheme_is_case_insensitive() {
    // URL schemes are case-insensitive: `FILE://…` is a file URL, and
    // the parser's tab/newline removal applies to the scheme too.
    assert_eq!(
        url_path_buf("FILE://server/share/x.ts"),
        Some(PathBuf::from("\\\\server\\share\\x.ts"))
    );
    assert_eq!(url_path_buf("fIlE:///C:/a.ts"), Some(PathBuf::from("C:/a.ts")));
    assert_eq!(
        url_path_buf("fi\tle://server/share/x.ts"),
        Some(PathBuf::from("\\\\server\\share\\x.ts"))
    );
}

#[test]
fn windows_tabs_and_newlines_are_stripped() {
    // The URL parser removes ASCII tab/newline characters everywhere
    // before parsing, in the authority and the path alike.
    for escape in ['\t', '\n', '\r'] {
        assert_eq!(
            url_path_buf(&format!("file://ser{escape}ver/sh{escape}are/x.ts")),
            Some(PathBuf::from("\\\\server\\share\\x.ts")),
            "{escape:?} must be stripped"
        );
    }
}

#[test]
fn windows_ipv4_authorities_are_canonicalized() {
    // WHATWG IPv4 parsing: partial and non-decimal spellings
    // canonicalize, anything ending in a number that is not valid IPv4
    // is ERR_INVALID_URL.
    assert_eq!(
        url_path_buf("file://127.1/share/x.ts"),
        Some(PathBuf::from("\\\\127.0.0.1\\share\\x.ts"))
    );
    assert_eq!(
        url_path_buf("file://1.2.3/share/x.ts"),
        Some(PathBuf::from("\\\\1.2.0.3\\share\\x.ts"))
    );
    assert_eq!(
        url_path_buf("file://0x7f.1/share/x.ts"),
        Some(PathBuf::from("\\\\127.0.0.1\\share\\x.ts"))
    );
    assert_eq!(
        url_path_buf("file://0177.0.0.1/share/x.ts"),
        Some(PathBuf::from("\\\\127.0.0.1\\share\\x.ts"))
    );
    // A bare hex or octal prefix is numeric zero.
    assert_eq!(
        url_path_buf("file://0x/share/x.ts"),
        Some(PathBuf::from("\\\\0.0.0.0\\share\\x.ts"))
    );
    assert_eq!(
        url_path_buf("file://0X.1/share/x.ts"),
        Some(PathBuf::from("\\\\0.0.0.1\\share\\x.ts"))
    );
    assert_eq!(
        url_path_buf("file://00/share/x.ts"),
        Some(PathBuf::from("\\\\0.0.0.0\\share\\x.ts"))
    );
    // A single trailing dot drops for classification: FQDNs keep it,
    // numeric hosts canonicalize, a double dot is an ordinary hostname.
    assert_eq!(
        url_path_buf("file://server.example./share/x.ts"),
        Some(PathBuf::from("\\\\server.example.\\share\\x.ts"))
    );
    assert_eq!(
        url_path_buf("file://127.1./share/x.ts"),
        Some(PathBuf::from("\\\\127.0.0.1\\share\\x.ts"))
    );
    assert_eq!(
        url_path_buf("file://1.2.3.4../share/x.ts"),
        Some(PathBuf::from("\\\\1.2.3.4..\\share\\x.ts"))
    );
    // A syntactically numeric label with an invalid value is rejected.
    assert_eq!(url_path_buf("file://09/share/x.ts"), None);
    assert_eq!(url_path_buf("file://256.1/share/x.ts"), None);
    assert_eq!(url_path_buf("file://1.2.3.4.5/share/x.ts"), None);
    assert_eq!(url_path_buf("file://server.256.1/share/x.ts"), None);
    assert_eq!(url_path_buf("file://1.2.3.256/share/x.ts"), None);
    // A name that merely ends in a digit is not IPv4.
    assert_eq!(
        url_path_buf("file://server1/share/x.ts"),
        Some(PathBuf::from("\\\\server1\\share\\x.ts"))
    );
}

#[test]
fn windows_authority_is_lowercased() {
    assert_eq!(
        url_path_buf("file://SERVER/share/x.ts"),
        Some(PathBuf::from("\\\\server\\share\\x.ts"))
    );
    // Punycode decodes after lowercasing, like the URL parser plus
    // `domainToUnicode`.
    assert_eq!(
        url_path_buf("file://XN--MSERVER-V2A/share/x.ts"),
        Some(PathBuf::from("\\\\mýserver\\share\\x.ts"))
    );
}

#[test]
fn non_file_urls_are_rejected() {
    assert_eq!(url_path_buf("https://example.com/x.ts"), None);
    assert_eq!(url_path_buf("node:fs"), None);
}

#[test]
fn windows_malformed_escapes_are_rejected() {
    // Node's `fileURLToPath` runs `decodeURIComponent`, which throws on
    // a malformed escape (URIError), on both the UNC and drive forms.
    assert_eq!(url_path_buf("file://server/share/a%zz.ts"), None);
    assert_eq!(url_path_buf("file:///C:/a%zz.ts"), None);
    assert_eq!(url_path_buf("file:///C:/a%"), None);
}

#[test]
fn windows_drive_letter_authority_folds_into_path() {
    // The URL parser folds a drive-letter authority back into the path
    // (`file://C:/app.ts` is `file:///C:/app.ts`); the `c|` spelling
    // normalizes to `c:`.
    assert_eq!(url_path_buf("file://C:/app.ts"), Some(PathBuf::from("C:/app.ts")));
    assert_eq!(url_path_buf("file://c|/app.ts"), Some(PathBuf::from("c:/app.ts")));
    assert_eq!(url_path_buf("file://C:"), Some(PathBuf::from("C:")));
    assert_eq!(url_path_buf("file://g:/dir/app.ts"), Some(PathBuf::from("g:/dir/app.ts")));
}

#[test]
fn invalid_utf8_escapes_are_rejected() {
    assert_eq!(url_path_buf("file:///a%FF.ts"), None);
    assert_eq!(url_path_buf("file://server/share/%FF.ts"), None);
}
