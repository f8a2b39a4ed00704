use stock_mm::auth::gatekeeper::{
    Auth, AuthError, AuthStatus, LOCK_SECS, MAX_FAILS, SESSION_TTL_SECS, TICKET_TTL_SECS,
};
use stock_mm::auth::setup::{
    choose_totp, decode_hex_or_new, draw, env_flag, files_beside, first_password_file,
    generate_password, generate_totp_secret, password_of, persist_enrolled, persist_path,
    totp_secret_of, AuthEnv, FirstPassword, Fresh, Persist, SetupFault, PASSWORD_ALPHABET,
};
use stock_mm::auth::token::{
    cookie_header, cookie_value, session_bytes_user, sign_session, verify_session, COOKIE_NAME,
};
use stock_mm::auth::totp::{
    code_from, decode_totp_secret, otpauth_url, padding, qr_svg, totp_accepts, totp_code, url_encode,
};
use stock_mm::codec::{ct_eq, ct_same, hmac_hex, text_bytes};
use stock_mm::exchange::session::now_secs;
use stock_mm::table::TextMap;

fn test_auth(password: &str, totp_raw: &[u8]) -> Auth {
    let password_key = vec![7u8; 32];
    Auth {
        enabled: true,
        username: "admin".to_string(),
        password_hash: hmac_hex(&password_key, &text_bytes(password)),
        password_key,
        totp_secret: totp_secret_of(&totp_raw.to_vec()),
        totp_enrolled: true,
        session_secret: vec![9u8; 32],
        cookie_secure: false,
        pending: TextMap::new(),
        fails: TextMap::new(),
    }
}

#[test]
fn rfc6238_sha1_vectors() {
    let secret = b"12345678901234567890".to_vec();
    assert_eq!(totp_code(&secret, 59), "287082");
    assert_eq!(totp_code(&secret, 1_111_111_109), "081804");
    assert_eq!(totp_code(&secret, 1_111_111_111), "050471");
}

#[test]
fn totp_accepts_adjacent_windows() {
    let secret = data_encoding::BASE32
        .encode(b"12345678901234567890")
        .replace('=', "");
    let code = totp_code(&b"12345678901234567890".to_vec(), 1_700_000_000);
    assert!(totp_accepts(&secret, &code, 1_700_000_000));
    assert!(totp_accepts(&secret, &code, 1_700_000_029));
    assert!(!totp_accepts(&secret, "000000", 1_700_000_000));
    assert!(!totp_accepts(&secret, "abc123", 1_700_000_000));
}

#[test]
fn session_roundtrip() {
    let auth = test_auth("passw0rd", b"12345678901234567890");
    let token = auth.sign_session("admin", now_secs() + 60);
    assert_eq!(
        auth.verify_session(&token, now_secs()).as_deref(),
        Some("admin")
    );
    let expired = auth.sign_session("admin", now_secs() - 1);
    assert!(auth.verify_session(&expired, now_secs()).is_none());
    assert!(auth.verify_session("nope", now_secs()).is_none());
}

#[test]
fn login_then_totp() {
    let secret = b"12345678901234567890";
    let mut auth = test_auth("s3cret", secret);
    assert!(auth.login("nope", "s3cret").is_err());
    assert!(auth.login("admin", "wrong").is_err());
    let out = auth.login("admin", "s3cret").unwrap();
    assert!(!out.enroll);
    let code = totp_code(&secret.to_vec(), now_secs());
    let cookie = auth.verify(&out.ticket, &code).unwrap();
    assert!(auth.verify_session(&cookie, now_secs()).is_some());
    assert!(auth.verify(&out.ticket, &code).is_err());
}

#[test]
fn first_login_returns_enroll_material() {
    let mut auth = test_auth("s3cret", b"12345678901234567890");
    auth.totp_enrolled = false;
    let out = auth.login("admin", "s3cret").unwrap();
    assert!(out.enroll);
    assert!(out.secret.as_ref().is_some_and(|s| !s.is_empty()));
    assert!(out
        .otpauth_url
        .as_ref()
        .is_some_and(|u| u.starts_with("otpauth://totp/")));
    assert!(out.qr_svg.as_ref().is_some_and(|s| s.contains("<svg")));
    let code = totp_code(&b"12345678901234567890".to_vec(), now_secs());
    auth.verify(&out.ticket, &code).unwrap();
    assert!(auth.totp_enrolled);
}

#[test]
fn lockout_after_repeated_failures() {
    let mut auth = test_auth("s3cret", b"12345678901234567890");
    for _ in 0..MAX_FAILS {
        assert_eq!(auth.login("admin", "bad").unwrap_err(), AuthError::Denied);
    }
    assert_eq!(
        auth.login("admin", "s3cret").unwrap_err(),
        AuthError::Locked
    );
}

#[test]
fn otpauth_contains_secret() {
    let url = otpauth_url("admin", "MFRGGZDFMZTWQ2LK");
    assert!(url.starts_with("otpauth://totp/STOCK%20MM:admin?"));
    assert!(url.contains("secret=MFRGGZDFMZTWQ2LK"));
    assert!(url.contains("issuer=STOCK%20MM"));
}

#[test]
fn otpauth_url_in_full() {
    assert_eq!(
        otpauth_url("a b/é", "XY"),
        "otpauth://totp/STOCK%20MM:a%20b%2F%C3%A9?secret=XY&issuer=STOCK%20MM&algorithm=SHA1&digits=6&period=30"
    );
    assert_eq!(url_encode("Az09-_.~"), "Az09-_.~");
}

#[test]
fn lock_ends_after_a_minute() {
    let mut auth = test_auth("s3cret", b"12345678901234567890");
    for i in 0..MAX_FAILS as u64 {
        assert_eq!(
            auth.login_at("admin", "bad", 1000 + i, "t").unwrap_err(),
            AuthError::Denied
        );
    }
    let last = 1000 + MAX_FAILS as u64 - 1;
    assert_eq!(
        auth.login_at("admin", "s3cret", last + LOCK_SECS - 1, "t")
            .unwrap_err(),
        AuthError::Locked
    );
    assert!(auth
        .login_at("admin", "s3cret", last + LOCK_SECS, "t")
        .is_ok());
}

#[test]
fn few_failures_do_not_lock_and_success_forgets_them() {
    let mut auth = test_auth("s3cret", b"12345678901234567890");
    for _ in 0..MAX_FAILS - 1 {
        assert!(auth.login_at("admin", "bad", 50, "t").is_err());
    }
    assert!(auth.login_at("admin", "s3cret", 50, "t").is_ok());
    for _ in 0..MAX_FAILS - 1 {
        assert!(auth.login_at("admin", "bad", 51, "t").is_err());
    }
    assert!(auth.login_at("admin", "s3cret", 51, "t").is_ok());
}

#[test]
fn failures_of_one_name_do_not_lock_another() {
    let mut auth = test_auth("s3cret", b"12345678901234567890");
    for _ in 0..MAX_FAILS {
        assert!(auth.login_at("mallory", "bad", 50, "t").is_err());
    }
    assert_eq!(
        auth.login_at("mallory", "bad", 50, "t").unwrap_err(),
        AuthError::Locked
    );
    assert!(auth.login_at("admin", "s3cret", 50, "t").is_ok());
}

#[test]
fn ticket_ends_and_serves_once() {
    let secret = b"12345678901234567890".to_vec();
    let mut auth = test_auth("s3cret", &secret);
    auth.login_at("admin", "s3cret", 1_000, "one").unwrap();
    auth.login_at("admin", "s3cret", 1_000, "two").unwrap();
    let late = 1_000 + TICKET_TTL_SECS;
    assert_eq!(
        auth.verify_at("one", &totp_code(&secret, late), late)
            .unwrap_err(),
        AuthError::Denied
    );
    let mut auth = test_auth("s3cret", &secret);
    auth.login_at("admin", "s3cret", 1_000, "one").unwrap();
    let then = 1_000 + TICKET_TTL_SECS - 1;
    let code = totp_code(&secret, then);
    let ok = auth
        .verify_at("one", &format!(" {code} "), then)
        .unwrap();
    assert!(!ok.enrolled);
    assert_eq!(
        auth.verify_session(&ok.token, then + SESSION_TTL_SECS - 1)
            .as_deref(),
        Some("admin")
    );
    assert!(auth
        .verify_session(&ok.token, then + SESSION_TTL_SECS)
        .is_none());
    assert_eq!(
        auth.verify_at("one", &code, then).unwrap_err(),
        AuthError::Denied
    );
}

#[test]
fn wrong_code_uses_the_ticket_up() {
    let secret = b"12345678901234567890".to_vec();
    let mut auth = test_auth("s3cret", &secret);
    auth.login_at("admin", "s3cret", 59, "one").unwrap();
    assert_eq!(
        auth.verify_at("one", "000000", 59).unwrap_err(),
        AuthError::Denied
    );
    assert_eq!(
        auth.verify_at("one", "287082", 59).unwrap_err(),
        AuthError::Denied
    );
}

#[test]
fn disabled_asks_nobody() {
    let mut auth = Auth::disabled();
    assert_eq!(
        auth.status(),
        AuthStatus {
            enabled: false,
            enrolled: true
        }
    );
    assert_eq!(auth.session_user(None, 0).as_deref(), Some("local"));
    assert_eq!(
        auth.login("local", "").unwrap_err(),
        AuthError::Disabled
    );
    assert_eq!(auth.verify("t", "1").unwrap_err(), AuthError::Disabled);
}

#[test]
fn cookies_carry_sessions() {
    let auth = test_auth("s3cret", b"12345678901234567890");
    let token = auth.sign_session("admin", 100);
    let raw = format!("a=b;  {COOKIE_NAME}={token} ; c=d");
    assert_eq!(auth.session_user(Some(&raw), 99).as_deref(), Some("admin"));
    assert!(auth.session_ok(Some(&raw), 99));
    assert!(!auth.session_ok(Some(&raw), 100));
    assert!(!auth.session_ok(Some("a=b"), 0));
    assert!(!auth.session_ok(None, 0));
    let other = auth.sign_session("somebody", 100);
    assert!(auth.verify_session(&other, 0).is_none());
    let mut bent = token.clone();
    bent.push('0');
    assert!(auth.verify_session(&bent, 0).is_none());
    assert_eq!(
        auth.session_cookie("x"),
        "mm_session=x; HttpOnly; SameSite=Lax; Path=/; Max-Age=43200"
    );
    assert_eq!(
        auth.logout_cookie(),
        "mm_session=; HttpOnly; SameSite=Lax; Path=/; Max-Age=0"
    );
    assert_eq!(
        cookie_header("v", 7, true),
        "mm_session=v; HttpOnly; SameSite=Lax; Path=/; Max-Age=7; Secure"
    );
    assert_eq!(cookie_value("x=1; x=2", "x").as_deref(), Some("1"));
    assert!(cookie_value("xx=1", "x").is_none());
}

#[test]
fn session_bytes_are_read_from_the_last_bar() {
    assert_eq!(
        session_bytes_user(&b"a|b|12".to_vec(), "a|b", 11).as_deref(),
        Some("a|b")
    );
    assert!(session_bytes_user(&b"a|b|12".to_vec(), "a|b", 12).is_none());
    assert!(session_bytes_user(&b"ab".to_vec(), "ab", 0).is_none());
    assert!(session_bytes_user(&b"ab|x".to_vec(), "ab", 0).is_none());
    assert!(session_bytes_user(&vec![0xff, b'|', b'9'], "ab", 0).is_none());
}

#[test]
fn digests_and_comparisons() {
    assert_eq!(
        hmac_hex(&text_bytes("Jefe"), &text_bytes("what do ya want for nothing?")),
        "5bdcc146bf60754e6a042426089575c75a003f089d2739839dec58b964ec3843"
    );
    assert!(ct_eq(&vec![1, 2], &vec![1, 2]));
    assert!(!ct_eq(&vec![1, 2], &vec![1, 3]));
    assert!(!ct_eq(&vec![1, 2], &vec![1]));
    assert!(ct_same("é", "é"));
    assert!(!ct_same("é", "e"));
}

#[test]
fn totp_secrets_with_and_without_padding() {
    assert_eq!(decode_totp_secret("mfrg g").as_deref(), Some(&b"abc"[..]));
    assert_eq!(decode_totp_secret("MFRGG===").as_deref(), Some(&b"abc"[..]));
    assert!(decode_totp_secret("M1!").is_none());
    assert_eq!(padding("AB"), "======");
    assert_eq!(padding("ABCD"), "====");
    assert_eq!(padding("ABCDE"), "===");
    assert_eq!(padding("ABCDEFG"), "=");
    assert_eq!(padding("ABCDEFGH"), "");
    assert_eq!(totp_secret_of(&b"abc".to_vec()), "MFRGG");
}

#[test]
fn code_of_a_digest() {
    let hash = vec![
        0x1f, 0x86, 0x98, 0x69, 0x0e, 0x02, 0xca, 0x16, 0x61, 0x85, 0x50, 0xef, 0x7f, 0x19, 0xda,
        0x8e, 0x94, 0x5b, 0x55, 0x5a,
    ];
    assert_eq!(code_from(&hash), "872921");
}

#[test]
fn code_of_the_next_and_the_last_period() {
    let key = b"12345678901234567890".to_vec();
    let secret = totp_secret_of(&key);
    let code = totp_code(&key, 59);
    assert!(totp_accepts(&secret, &code, 0));
    assert!(totp_accepts(&secret, &code, 89));
    assert!(!totp_accepts(&secret, &code, 90));
    assert!(totp_accepts(&secret, &totp_code(&key, u64::MAX), u64::MAX));
}

#[test]
fn picture_of_an_address() {
    let svg = qr_svg("otpauth://totp/x").unwrap();
    assert!(svg.contains("#0b1020") && svg.contains("#ffffff"));
    assert!(qr_svg(&"x".repeat(4000)).is_none());
}

#[test]
fn flags_of_the_environment() {
    for yes in ["1", " TRUE ", "yes", "On"] {
        assert!(env_flag(&Some(yes.to_string())));
    }
    for no in ["0", "", "nope"] {
        assert!(!env_flag(&Some(no.to_string())));
    }
    assert!(!env_flag(&None));
}

fn fresh() -> Fresh {
    Fresh {
        password_key: vec![1; 32],
        session_secret: vec![2; 32],
        password: "generated".to_string(),
        totp_secret: "MFRGG".to_string(),
    }
}

#[test]
fn first_setup_makes_everything_up() {
    let env = AuthEnv::default();
    let setup = Auth::load(&env, Persist::default(), fresh());
    match setup.first_password {
        FirstPassword::Write(text) => assert_eq!(text, first_password_file("admin", "generated")),
        other => panic!("{other:?}"),
    }
    let (mut auth, kept) = setup.result.unwrap();
    let kept = kept.unwrap();
    assert_eq!(auth.username, "admin");
    assert!(!auth.totp_enrolled);
    assert_eq!(kept.password_key, "01".repeat(32));
    assert_eq!(kept.session_secret, "02".repeat(32));
    assert!(!kept.password_hash.is_empty());
    assert!(auth.login_at("admin", "generated", 0, "t").is_ok());
    assert_eq!(
        first_password_file("u", "p"),
        "username=u\npassword=p\n# deleted after the first successful TOTP login\n"
    );
}

#[test]
fn everybody_is_let_in_where_the_environment_says_so() {
    let env = AuthEnv {
        disabled: Some("1".to_string()),
        ..AuthEnv::default()
    };
    let setup = Auth::load(&env, Persist::default(), fresh());
    assert!(matches!(setup.first_password, FirstPassword::Leave));
    let (auth, kept) = setup.result.unwrap();
    assert!(kept.is_none());
    assert_eq!(auth.session_user(None, 0).unwrap(), "local");
}

#[test]
fn second_setup_keeps_everything() {
    let env = AuthEnv::default();
    let (first, kept) = Auth::load(&env, Persist::default(), fresh()).result.unwrap();
    let kept = persist_enrolled(&first, kept.unwrap());
    let mut other = fresh();
    other.password_key = vec![5; 32];
    other.session_secret = vec![6; 32];
    other.password = "another".to_string();
    other.totp_secret = "GEZDG".to_string();
    let setup = Auth::load(&env, kept, other);
    assert!(matches!(setup.first_password, FirstPassword::Leave));
    let (second, _) = setup.result.unwrap();
    assert_eq!(second.password_key, first.password_key);
    assert_eq!(second.password_hash, first.password_hash);
    assert_eq!(second.session_secret, first.session_secret);
    assert_eq!(second.totp_secret, first.totp_secret);
    assert!(second.totp_enrolled);
}

#[test]
fn environment_comes_first() {
    let env = AuthEnv {
        disabled: None,
        session_secret: Some(" 0aFF ".to_string()),
        username: Some(" me ".to_string()),
        password: Some(" pw ".to_string()),
        totp_secret: Some("mf rg g".to_string()),
        reset_totp: None,
        cookie_secure: Some("1".to_string()),
    };
    let setup = Auth::load(&env, Persist::default(), fresh());
    assert!(matches!(setup.first_password, FirstPassword::Remove));
    let (mut auth, kept) = setup.result.unwrap();
    let kept = kept.unwrap();
    assert_eq!(auth.session_secret, vec![0x0a, 0xff]);
    assert_eq!(kept.session_secret, "0aff");
    assert_eq!(kept.password_hash, "");
    assert_eq!(auth.totp_secret, "MFRGG");
    assert!(auth.totp_enrolled && auth.cookie_secure);
    assert!(auth.login_at("me", "pw", 0, "t").is_ok());
    let env = AuthEnv {
        session_secret: Some("plain".to_string()),
        ..AuthEnv::default()
    };
    let (auth, _) = Auth::load(&env, Persist::default(), fresh()).result.unwrap();
    assert_eq!(auth.session_secret, b"plain".to_vec());
}

#[test]
fn secrets_that_are_no_base32() {
    let kept = Persist {
        totp_secret: "!!".to_string(),
        ..Persist::default()
    };
    assert_eq!(
        choose_totp(&Some("!".to_string()), false, &kept, "MFRGG").unwrap_err(),
        SetupFault::GivenSecret
    );
    assert_eq!(
        choose_totp(&None, false, &kept, "MFRGG").unwrap_err(),
        SetupFault::KeptSecret
    );
    assert_eq!(
        choose_totp(&None, true, &kept, "MFRGG").unwrap(),
        ("MFRGG".to_string(), false)
    );
}

#[test]
fn kept_keys_of_the_wrong_length_are_replaced() {
    let mut stored = "0102".to_string();
    assert_eq!(decode_hex_or_new(&mut stored, &vec![9, 9]), vec![1, 2]);
    assert_eq!(stored, "0102");
    assert_eq!(decode_hex_or_new(&mut stored, &vec![9]), vec![9]);
    assert_eq!(stored, "09");
    let mut stored = "zz".to_string();
    assert_eq!(decode_hex_or_new(&mut stored, &vec![171]), vec![171]);
    assert_eq!(stored, "ab");
}

#[test]
fn chance_gives_what_is_asked_for() {
    let a = generate_password();
    assert_eq!(a.len(), 16);
    assert!(a.chars().all(|c| PASSWORD_ALPHABET.contains(c)));
    assert_ne!(a, generate_password());
    let s = generate_totp_secret();
    assert_eq!(decode_totp_secret(&s).unwrap().len(), 20);
    let f = draw();
    assert_eq!((f.password_key.len(), f.session_secret.len()), (32, 32));
    assert_ne!(f.password_key, f.session_secret);
}

#[test]
fn files_stand_beside_the_database() {
    assert_eq!(persist_path("sqlite://data2/mm.db"), "data2");
    assert_eq!(persist_path("sqlite:/var/x/mm.db"), "/var/x");
    assert_eq!(persist_path("sqlite://mm.db"), "data");
    assert_eq!(persist_path("postgres://x/y"), "data");
    assert_eq!(files_beside(Some("d".to_string())), "d");
    assert_eq!(files_beside(Some(String::new())), "data");
    assert_eq!(files_beside(None), "data");
}

#[test]
fn passwords_are_made_of_picks() {
    assert_eq!(password_of(&vec![0, 1, 23, 24, 55]), "ABZa8");
    assert_eq!(password_of(&Vec::new()), "");
}

#[test]
fn kept_texts_are_left_as_they_are() {
    let mut stored = "0A0b".to_string();
    assert_eq!(decode_hex_or_new(&mut stored, &vec![9, 9]), vec![10, 11]);
    assert_eq!(stored, "0A0b");
    assert_eq!(decode_hex_or_new(&mut stored, &vec![171]), vec![171]);
    assert_eq!(stored, "ab");
}

#[test]
fn files_stand_beside_a_plain_database() {
    assert_eq!(persist_path("sqlite:dir_1/stock-mm.db"), "dir_1");
    assert_eq!(persist_path("sqlite:mm.db"), "data");
    assert_eq!(persist_path("sqlite:"), "data");
    assert_eq!(persist_path("sqlite://"), "data");
}

#[test]
fn files_stand_beside_a_database_anywhere() {
    assert_eq!(persist_path("sqlite:/mm.db"), "/");
    assert_eq!(persist_path("sqlite:///srv/a/b/mm.db"), "/srv/a/b");
    assert_eq!(persist_path("sqlite://./db/mm.db"), "./db");
    assert_eq!(persist_path("sqlite:./mm.db"), ".");
    assert_eq!(persist_path("sqlite:../x/.keep/mm.db"), "../x/.keep");
    assert_eq!(persist_path("sqlite:a b/c/mm.db"), "a b/c");
}

#[test]
fn a_token_lets_in_until_it_ends() {
    let token = sign_session(&vec![1, 2, 3], "me", 1_000);
    assert_eq!(verify_session(&vec![1, 2, 3], "me", &token, 999).as_deref(), Some("me"));
    assert_eq!(verify_session(&vec![1, 2, 3], "me", &token, 1_000), None);
}
