//! What the HTTP server replies.

use tor_js_gateway::http::{Body, Reply};
use tor_js_gateway::net::{IpAddr, SocketAddr};
use tor_js_gateway::path::FilePath;
use tor_js_gateway::server::{
    best_encoding, handle_bootstrap_zip_br, handle_index, handle_js, negotiated_file, routes, run,
    serve_file, variant_file, Encoding, Route,
};

fn accept(values: &[&str]) -> Vec<Vec<u8>> {
    values.iter().map(|v| v.as_bytes().to_vec()).collect()
}

fn headers(reply: &Reply) -> Vec<(&str, &str)> {
    reply.headers.iter().map(|(k, v)| (k.as_str(), v.as_str())).collect()
}

fn body(reply: &Reply) -> &[u8] {
    match &reply.body {
        Body::Empty => &[],
        Body::Text(t) => t.as_bytes(),
        Body::Bytes(b) => b,
    }
}

#[test]
fn the_uncompressed_archive_is_served_only_where_allowed() {
    assert!(!routes(false).contains(&Route::BootstrapZip));
    assert!(routes(true).contains(&Route::BootstrapZip));
    assert_eq!(routes(false).len(), 6);
    let (addr, served) = run(42298, true);
    assert_eq!(addr, SocketAddr { ip: IpAddr::V4(0), port: 42298, flowinfo: 0, scope_id: 0 });
    assert_eq!(served, routes(true));
    let paths: Vec<&str> = served.iter().map(|r| r.path()).collect();
    for p in [
        "/",
        "/torFastBootstrap.js",
        "/metadata.json",
        "/bootstrap.zip",
        "/bootstrap.zip.br",
        "/socket/{target}",
        "/rtc/connect",
    ] {
        assert!(paths.contains(&p));
    }
}

#[test]
fn brotli_is_preferred_to_gzip() {
    assert_eq!(best_encoding(&accept(&["gzip, br"])), Encoding::Brotli);
    assert_eq!(best_encoding(&accept(&["gzip", " br;q=0.1"])), Encoding::Brotli);
    assert_eq!(best_encoding(&accept(&["deflate,\tgzip"])), Encoding::Gzip);
    assert_eq!(best_encoding(&accept(&["x-gzip"])), Encoding::Gzip);
    assert_eq!(best_encoding(&accept(&["brotli, broken"])), Encoding::Identity);
    assert_eq!(best_encoding(&accept(&["gzipped"])), Encoding::Identity);
    assert_eq!(best_encoding(&accept(&["deflate"])), Encoding::Identity);
    assert_eq!(best_encoding(&accept(&["BR"])), Encoding::Identity);
    assert_eq!(best_encoding(&accept(&[""])), Encoding::Identity);
    assert_eq!(best_encoding(&Vec::new()), Encoding::Identity);
}

#[test]
fn an_encoding_with_weight_0_is_not_accepted() {
    assert_eq!(best_encoding(&accept(&["br;q=0, gzip"])), Encoding::Gzip);
    assert_eq!(best_encoding(&accept(&["br ; Q = 0.000,gzip;q=0."])), Encoding::Identity);
    assert_eq!(best_encoding(&accept(&["br;x=1;q=0", "x-gzip;q=0.5"])), Encoding::Gzip);
    assert_eq!(best_encoding(&accept(&["br;q=0.001"])), Encoding::Brotli);
    assert_eq!(best_encoding(&accept(&["br;q=1"])), Encoding::Brotli);
    assert_eq!(best_encoding(&accept(&["br;q"])), Encoding::Brotli);
    assert_eq!(best_encoding(&accept(&["br;q="])), Encoding::Brotli);
    assert_eq!(best_encoding(&accept(&["br;q=0", "br"])), Encoding::Brotli);
}

#[test]
fn a_header_value_that_is_not_visible_text_does_not_count() {
    assert_eq!(best_encoding(&vec![b"br\xff".to_vec()]), Encoding::Identity);
    assert_eq!(best_encoding(&vec![b"br\x7f".to_vec(), b"gzip".to_vec()]), Encoding::Gzip);
    assert_eq!(best_encoding(&vec![b"\tbr".to_vec()]), Encoding::Brotli);
}

#[test]
fn a_variant_is_the_file_with_a_suffix() {
    let dir = FilePath::from_text("/data");
    let file = |e| variant_file(&dir, "metadata.json", e).map(|p| p.display());
    assert_eq!(file(Encoding::Brotli), Some("/data/metadata.json.br".to_string()));
    assert_eq!(file(Encoding::Gzip), Some("/data/metadata.json.gz".to_string()));
    assert_eq!(file(Encoding::Identity), None);
}

#[test]
fn a_file_is_served_as_the_variant_where_there_is_one() {
    let r = serve_file(Encoding::Brotli, "application/json", Some(vec![1]), None);
    assert_eq!(r.status, 200);
    assert_eq!(
        headers(&r),
        vec![("content-type", "application/json"), ("content-encoding", "br")]
    );
    assert_eq!(body(&r), &[1]);

    let r = serve_file(Encoding::Gzip, "application/json", Some(vec![2]), None);
    assert_eq!(
        headers(&r),
        vec![("content-type", "application/json"), ("content-encoding", "gzip")]
    );

    let r = serve_file(Encoding::Gzip, "application/json", None, Some(vec![3]));
    assert_eq!(headers(&r), vec![("content-type", "application/json")]);
    assert_eq!(body(&r), &[3]);

    let r = serve_file(Encoding::Identity, "application/json", None, Some(vec![4]));
    assert_eq!(r.status, 200);
    assert_eq!(headers(&r), vec![("content-type", "application/json")]);

    let r = serve_file(Encoding::Brotli, "application/json", None, None);
    assert_eq!(r.status, 503);
    assert!(headers(&r).is_empty());
    assert!(body(&r).is_empty());
}

#[test]
fn the_web_ui_is_served_as_text() {
    let r = handle_index("<html>");
    assert_eq!(r.status, 200);
    assert_eq!(headers(&r), vec![("content-type", "text/html; charset=utf-8")]);
    assert_eq!(body(&r), b"<html>");
    let r = handle_js("let x;");
    assert_eq!(r.status, 200);
    assert_eq!(headers(&r), vec![("content-type", "text/javascript; charset=utf-8")]);
    assert_eq!(body(&r), b"let x;");
}

#[test]
fn two_routes_negotiate() {
    assert_eq!(negotiated_file(Route::Metadata), Some(("metadata.json", "application/json")));
    assert_eq!(negotiated_file(Route::BootstrapZip), Some(("bootstrap.zip", "application/zip")));
    assert_eq!(negotiated_file(Route::BootstrapZipBr), None);
    assert_eq!(negotiated_file(Route::Index), None);
}

#[test]
fn the_compressed_archive_is_the_same_for_every_client() {
    let r = handle_bootstrap_zip_br(Encoding::Brotli, Some(vec![9, 8]), Some(1234));
    assert_eq!(r.status, 200);
    assert_eq!(
        headers(&r),
        vec![
            ("content-type", "application/zip"),
            ("content-encoding", "br"),
            ("x-decompressed-content-length", "1234"),
        ]
    );
    assert_eq!(body(&r), &[9, 8]);

    let r = handle_bootstrap_zip_br(Encoding::Gzip, Some(vec![9, 8]), Some(u64::MAX));
    assert_eq!(
        headers(&r),
        vec![
            ("content-type", "application/octet-stream"),
            ("x-decompressed-content-length", "18446744073709551615"),
        ]
    );
    assert_eq!(body(&r), &[9, 8]);

    let r = handle_bootstrap_zip_br(Encoding::Identity, Some(vec![9, 8]), None);
    assert_eq!(headers(&r), vec![("content-type", "application/octet-stream")]);

    let r = handle_bootstrap_zip_br(Encoding::Brotli, None, Some(1));
    assert_eq!(r.status, 503);
    assert!(headers(&r).is_empty());
}
