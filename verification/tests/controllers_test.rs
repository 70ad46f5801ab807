use advcache::clear::{handle_clear, ClearOutcome, TokenState, TOKEN_TTL_NANOS};
use advcache::clear::ClearController;
use advcache::controllers::{AdmissionController, BypassOnOffController, LifetimeManagerController};
use advcache::controllers::{
    entry_lookup_status, eviction_scale_target, lifetime_policy_name,
    parse_entry_key, probe_response, rate_updated_message, read_count_param, BackendPolicy, EntryKeyError,
    ParamError, ShowBackendPolicy, FAILED_RESPONSE, SUCCESS_RESPONSE,
};
use advcache::controllers::LivenessProbeController;
use advcache::controllers::{ChangeBackendPolicyController, HttpCompressionController, PrometheusMetricsController, TracesController};

#[test]
fn backend_policy_is_named() {
    assert_eq!(ShowBackendPolicy::new(BackendPolicy::Await).current, "await");
    assert_eq!(ShowBackendPolicy::new(BackendPolicy::Deny).current, "deny");
    let _ = ChangeBackendPolicyController::new();
    let _ = HttpCompressionController::default();
    let _ = PrometheusMetricsController::new();
    let _ = TracesController::default();
}

#[test]
fn scale_parameter_checks() {
    assert_eq!(eviction_scale_target(None), Err(ParamError::Missing));
    assert_eq!(eviction_scale_target(Some("abc")), Err(ParamError::Invalid));
    assert_eq!(eviction_scale_target(Some("-1")), Err(ParamError::Invalid));
    assert_eq!(eviction_scale_target(Some("0")), Ok(0));
    assert_eq!(eviction_scale_target(Some("00")), Err(ParamError::NotPositive));
    assert_eq!(eviction_scale_target(Some("+0")), Err(ParamError::NotPositive));
    assert_eq!(eviction_scale_target(Some("+4")), Ok(4));
    assert_eq!(eviction_scale_target(Some("18446744073709551616")), Err(ParamError::Invalid));
    assert_eq!(read_count_param(Some("00")), Ok(0));
    assert_eq!(read_count_param(Some("")), Err(ParamError::Invalid));
}

#[test]
fn parameter_messages() {
    assert_eq!(ParamError::Missing.message("to"), "missing 'to' parameter");
    assert_eq!(ParamError::Invalid.message("rate"), "invalid 'rate' parameter");
    assert_eq!(ParamError::NotPositive.message("to"), "'to' value must be positive");
    assert_eq!(rate_updated_message(250), "rate updated to 250");
    assert_eq!(rate_updated_message(0), "rate updated to 0");
}

#[test]
fn lifetime_policy_names() {
    assert_eq!(lifetime_policy_name(Some(true)), "remove");
    assert_eq!(lifetime_policy_name(Some(false)), "refresh");
    assert_eq!(lifetime_policy_name(None), "refresh");
}

#[test]
fn entry_key_lookup() {
    assert_eq!(parse_entry_key(None), Err(EntryKeyError::Missing));
    assert_eq!(parse_entry_key(Some("x1")), Err(EntryKeyError::Invalid));
    assert_eq!(parse_entry_key(Some("18446744073709551615")), Ok(u64::MAX));
    assert_eq!(entry_lookup_status(Ok(1), true), 200);
    assert_eq!(entry_lookup_status(Ok(1), false), 404);
    assert_eq!(entry_lookup_status(Err(EntryKeyError::Missing), false), 404);
    assert_eq!(entry_lookup_status(Err(EntryKeyError::Invalid), false), 500);
}

#[test]
fn probe_and_bypass_answers() {
    assert_eq!(probe_response(true), (200, SUCCESS_RESPONSE));
    assert_eq!(probe_response(false), (503, FAILED_RESPONSE));
    assert!(SUCCESS_RESPONSE.contains("I'm fine :D"));
    let mut bypass = BypassOnOffController::new(true);
    assert!(!bypass.bypass_is());
    assert!(bypass.off());
    assert!(bypass.bypass_is());
    assert!(!bypass.is_enabled());
    assert!(!bypass.on());
    assert!(bypass.is_enabled());
}

#[test]
fn admission_and_lifetime_switches() {
    let mut adm = AdmissionController::new(Some(true));
    assert!(adm.get());
    assert!(!adm.off());
    assert!(adm.on());
    let mut none = AdmissionController::new(None);
    assert!(!none.on());
    assert!(!none.get());
    let mut lt = LifetimeManagerController::new(Some(false));
    assert_eq!(lt.policy(), "refresh");
    assert_eq!(lt.to_remove_policy(), "remove");
    assert_eq!(lt.to_refresh_policy(), "refresh");
    let mut absent = LifetimeManagerController::new(None);
    assert_eq!(absent.to_remove_policy(), "refresh");
}

#[test]
fn clear_controller_keeps_its_token() {
    let mut c = ClearController::new();
    let token = match c.handle_clear(5, None, &[7u8; 16]) {
        ClearOutcome::Token { token, .. } => token,
        _ => panic!("expected a token"),
    };
    assert_eq!(token, "07".repeat(16));
    assert!(matches!(c.handle_clear(6, Some(token.clone()), &[0u8; 16]), ClearOutcome::Cleared));
    assert!(matches!(c.handle_clear(7, Some(token), &[0u8; 16]), ClearOutcome::Rejected));
}

#[test]
fn clear_token_flow() {
    let fresh = [0xabu8, 0x01, 0, 0, 0, 0, 0, 0, 0, 0, 0, 0, 0, 0, 0, 0xff];
    let mut state = TokenState::new();
    let now = 1_000_000_000_000u64;
    let token = match handle_clear(&mut state, now, None, &fresh) {
        ClearOutcome::Token { token, expires_at } => {
            assert_eq!(expires_at, ((now + TOKEN_TTL_NANOS) / 1_000_000) as i64);
            token
        }
        _ => panic!("expected a token"),
    };
    assert_eq!(token, "ab0100000000000000000000000000ff");
    match handle_clear(&mut state, now + 1, None, &[0u8; 16]) {
        ClearOutcome::Token { token: again, .. } => assert_eq!(again, token),
        _ => panic!("expected the same token"),
    }
    assert!(matches!(handle_clear(&mut state, now + 2, Some(token.clone()), &fresh), ClearOutcome::Cleared));
    assert!(matches!(handle_clear(&mut state, now + 3, Some(token.clone()), &fresh), ClearOutcome::Rejected));
}

#[test]
fn expired_or_wrong_tokens_are_rejected() {
    let fresh = [1u8; 16];
    let mut state = TokenState::new();
    let _ = handle_clear(&mut state, 10, None, &fresh);
    assert!(matches!(handle_clear(&mut state, 11, Some("nope".to_string()), &fresh), ClearOutcome::Rejected));
    let token = match handle_clear(&mut state, 20, None, &fresh) {
        ClearOutcome::Token { token, .. } => token,
        _ => panic!("expected a token"),
    };
    assert!(matches!(
        handle_clear(&mut state, 20 + TOKEN_TTL_NANOS, Some(token), &fresh),
        ClearOutcome::Rejected
    ));
}

struct FixedProbe(bool);

impl advcache::controllers::Prober for FixedProbe {
    fn is_alive(&self) -> bool {
        self.0
    }
}

#[test]
fn liveness_controller_asks_the_probe() {
    assert_eq!(LivenessProbeController::new(FixedProbe(true)).probe(), (200, SUCCESS_RESPONSE));
    assert_eq!(LivenessProbeController::new(FixedProbe(false)).probe(), (503, FAILED_RESPONSE));
}
