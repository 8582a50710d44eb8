//! The product's built-in presets.
use vstd::prelude::*;

use crate::at::risk::RiskLevel;
use crate::presets::definition::{
    definition_view, definitions_into_presets, preset_from_definition, PresetDefinition,
};
use crate::presets::model::{Preset, PresetOrigin};

verus! {

broadcast use vstd::string::group_string_axioms;

/// The built-in presets in their curated workflow order: name, command,
/// declared risk, categories and timeout hint.
pub open spec fn builtin_preset_table() -> Seq<(Seq<char>, Seq<char>, RiskLevel, Seq<Seq<char>>, Option<u64>)> {
    seq![
        ("modem-response"@, "AT"@, RiskLevel::Safe, seq!["basic"@], None),
        ("modem-info"@, "ATI"@, RiskLevel::Safe, seq!["identity"@], None),
        ("manufacturer"@, "AT+CGMI"@, RiskLevel::Safe, seq!["identity"@], None),
        ("model"@, "AT+CGMM"@, RiskLevel::Safe, seq!["identity"@], None),
        ("firmware-revision"@, "AT+CGMR"@, RiskLevel::Safe, seq!["identity"@], None),
        ("imei"@, "AT+CGSN"@, RiskLevel::Sensitive, seq!["identity"@], None),
        ("sim-pin-status"@, "AT+CPIN?"@, RiskLevel::Safe, seq!["sim"@], None),
        ("imsi"@, "AT+CIMI"@, RiskLevel::Sensitive, seq!["sim"@], None),
        ("radio-stack"@, "AT+WS46?"@, RiskLevel::Safe, seq!["network"@], None),
        ("radio-stack-capabilities"@, "AT+WS46=?"@, RiskLevel::Safe, seq!["network"@], None),
        ("current-operator"@, "AT+COPS?"@, RiskLevel::Safe, seq!["network"@], None),
        ("available-operators"@, "AT+COPS=?"@, RiskLevel::Safe, seq!["network"@], Some(180u64)),
        ("operator-format-numeric"@, "AT+COPS=3,2"@, RiskLevel::Write, seq!["network"@], None),
        ("operator-auto-selection"@, "AT+COPS=0"@, RiskLevel::Write, seq!["network"@], None),
        ("circuit-registration"@, "AT+CREG?"@, RiskLevel::Safe, seq!["network"@], None),
        ("gprs-registration"@, "AT+CGREG?"@, RiskLevel::Safe, seq!["network"@], None),
        ("eps-registration"@, "AT+CEREG?"@, RiskLevel::Safe, seq!["network"@], None),
        ("enable-circuit-registration-detail"@, "AT+CREG=2"@, RiskLevel::Write, seq!["network"@], None),
        ("enable-gprs-registration-detail"@, "AT+CGREG=2"@, RiskLevel::Write, seq!["network"@], None),
        ("enable-eps-registration-detail"@, "AT+CEREG=2"@, RiskLevel::Write, seq!["network"@], None),
        ("enable-eps-registration-cause"@, "AT+CEREG=3"@, RiskLevel::Write, seq!["network"@], None),
        ("enable-eps-registration-extended"@, "AT+CEREG=5"@, RiskLevel::Write, seq!["network"@], None),
        ("signal-quality"@, "AT+CSQ"@, RiskLevel::Safe, seq!["signal"@], None),
        ("extended-signal-quality"@, "AT+CESQ"@, RiskLevel::Safe, seq!["signal"@], None),
        ("extended-signal-capabilities"@, "AT+CESQ=?"@, RiskLevel::Safe, seq!["signal"@], None),
        ("pdp-contexts"@, "AT+CGDCONT?"@, RiskLevel::Safe, seq!["pdp"@, "apn"@], None),
        ("pdp-auth-settings"@, "AT+CGAUTH?"@, RiskLevel::Sensitive, seq!["pdp"@, "apn"@], None),
        ("pdp-auth-capabilities"@, "AT+CGAUTH=?"@, RiskLevel::Safe, seq!["pdp"@, "apn"@], None),
        ("packet-attach"@, "AT+CGATT?"@, RiskLevel::Safe, seq!["network"@, "pdp"@], None),
        ("active-pdp-contexts"@, "AT+CGACT?"@, RiskLevel::Safe, seq!["pdp"@], None),
        ("pdp-addresses"@, "AT+CGPADDR"@, RiskLevel::Safe, seq!["pdp"@], None),
        ("pdp-address-capabilities"@, "AT+CGPADDR=?"@, RiskLevel::Safe, seq!["pdp"@], None),
        ("pdp-connection-details"@, "AT+CGCONTRDP"@, RiskLevel::Safe, seq!["pdp"@], None),
        ("extended-error-report"@, "AT+CEER"@, RiskLevel::Safe, seq!["diagnostics"@], None),
        ("error-reporting-status"@, "AT+CMEE?"@, RiskLevel::Safe, seq!["diagnostics"@], None),
        ("enable-verbose-errors"@, "AT+CMEE=2"@, RiskLevel::Write, seq!["diagnostics"@], None),
        ("modem-activity-status"@, "AT+CPAS"@, RiskLevel::Safe, seq!["modem"@, "diagnostics"@], None),
        ("sms-service-support"@, "AT+CSMS?"@, RiskLevel::Safe, seq!["sms"@], None),
        ("sms-format"@, "AT+CMGF?"@, RiskLevel::Safe, seq!["sms"@], None),
        ("sms-storage"@, "AT+CPMS?"@, RiskLevel::Safe, seq!["sms"@], None),
        ("modem-functionality"@, "AT+CFUN?"@, RiskLevel::Safe, seq!["modem"@], None),
        ("set-modem-minimum-functionality"@, "AT+CFUN=0"@, RiskLevel::Dangerous, seq!["modem"@], None),
        ("set-modem-full-functionality"@, "AT+CFUN=1"@, RiskLevel::Dangerous, seq!["modem"@], None),
        ("restart-modem"@, "AT+CFUN=1,1"@, RiskLevel::Dangerous, seq!["modem"@], None),
        ("disable-command-echo"@, "ATE0"@, RiskLevel::Write, seq!["basic"@], None),
    ]
}

fn builtin_definitions() -> (r: Vec<PresetDefinition>)
    ensures
        r@.map_values(|d: PresetDefinition| definition_view(d)) == builtin_preset_table(),
{
    let r = vec![
        PresetDefinition::new("modem-response", "AT", RiskLevel::Safe, &["basic"]),
        PresetDefinition::new("modem-info", "ATI", RiskLevel::Safe, &["identity"]),
        PresetDefinition::new("manufacturer", "AT+CGMI", RiskLevel::Safe, &["identity"]),
        PresetDefinition::new("model", "AT+CGMM", RiskLevel::Safe, &["identity"]),
        PresetDefinition::new("firmware-revision", "AT+CGMR", RiskLevel::Safe, &["identity"]),
        PresetDefinition::new("imei", "AT+CGSN", RiskLevel::Sensitive, &["identity"]),
        PresetDefinition::new("sim-pin-status", "AT+CPIN?", RiskLevel::Safe, &["sim"]),
        PresetDefinition::new("imsi", "AT+CIMI", RiskLevel::Sensitive, &["sim"]),
        PresetDefinition::new("radio-stack", "AT+WS46?", RiskLevel::Safe, &["network"]),
        PresetDefinition::new("radio-stack-capabilities", "AT+WS46=?", RiskLevel::Safe, &["network"]),
        PresetDefinition::new("current-operator", "AT+COPS?", RiskLevel::Safe, &["network"]),
        PresetDefinition::new("available-operators", "AT+COPS=?", RiskLevel::Safe, &["network"]).with_timeout(180),
        PresetDefinition::new("operator-format-numeric", "AT+COPS=3,2", RiskLevel::Write, &["network"]),
        PresetDefinition::new("operator-auto-selection", "AT+COPS=0", RiskLevel::Write, &["network"]),
        PresetDefinition::new("circuit-registration", "AT+CREG?", RiskLevel::Safe, &["network"]),
        PresetDefinition::new("gprs-registration", "AT+CGREG?", RiskLevel::Safe, &["network"]),
        PresetDefinition::new("eps-registration", "AT+CEREG?", RiskLevel::Safe, &["network"]),
        PresetDefinition::new("enable-circuit-registration-detail", "AT+CREG=2", RiskLevel::Write, &["network"]),
        PresetDefinition::new("enable-gprs-registration-detail", "AT+CGREG=2", RiskLevel::Write, &["network"]),
        PresetDefinition::new("enable-eps-registration-detail", "AT+CEREG=2", RiskLevel::Write, &["network"]),
        PresetDefinition::new("enable-eps-registration-cause", "AT+CEREG=3", RiskLevel::Write, &["network"]),
        PresetDefinition::new("enable-eps-registration-extended", "AT+CEREG=5", RiskLevel::Write, &["network"]),
        PresetDefinition::new("signal-quality", "AT+CSQ", RiskLevel::Safe, &["signal"]),
        PresetDefinition::new("extended-signal-quality", "AT+CESQ", RiskLevel::Safe, &["signal"]),
        PresetDefinition::new("extended-signal-capabilities", "AT+CESQ=?", RiskLevel::Safe, &["signal"]),
        PresetDefinition::new("pdp-contexts", "AT+CGDCONT?", RiskLevel::Safe, &["pdp", "apn"]),
        PresetDefinition::new("pdp-auth-settings", "AT+CGAUTH?", RiskLevel::Sensitive, &["pdp", "apn"]),
        PresetDefinition::new("pdp-auth-capabilities", "AT+CGAUTH=?", RiskLevel::Safe, &["pdp", "apn"]),
        PresetDefinition::new("packet-attach", "AT+CGATT?", RiskLevel::Safe, &["network", "pdp"]),
        PresetDefinition::new("active-pdp-contexts", "AT+CGACT?", RiskLevel::Safe, &["pdp"]),
        PresetDefinition::new("pdp-addresses", "AT+CGPADDR", RiskLevel::Safe, &["pdp"]),
        PresetDefinition::new("pdp-address-capabilities", "AT+CGPADDR=?", RiskLevel::Safe, &["pdp"]),
        PresetDefinition::new("pdp-connection-details", "AT+CGCONTRDP", RiskLevel::Safe, &["pdp"]),
        PresetDefinition::new("extended-error-report", "AT+CEER", RiskLevel::Safe, &["diagnostics"]),
        PresetDefinition::new("error-reporting-status", "AT+CMEE?", RiskLevel::Safe, &["diagnostics"]),
        PresetDefinition::new("enable-verbose-errors", "AT+CMEE=2", RiskLevel::Write, &["diagnostics"]),
        PresetDefinition::new("modem-activity-status", "AT+CPAS", RiskLevel::Safe, &["modem", "diagnostics"]),
        PresetDefinition::new("sms-service-support", "AT+CSMS?", RiskLevel::Safe, &["sms"]),
        PresetDefinition::new("sms-format", "AT+CMGF?", RiskLevel::Safe, &["sms"]),
        PresetDefinition::new("sms-storage", "AT+CPMS?", RiskLevel::Safe, &["sms"]),
        PresetDefinition::new("modem-functionality", "AT+CFUN?", RiskLevel::Safe, &["modem"]),
        PresetDefinition::new("set-modem-minimum-functionality", "AT+CFUN=0", RiskLevel::Dangerous, &["modem"]),
        PresetDefinition::new("set-modem-full-functionality", "AT+CFUN=1", RiskLevel::Dangerous, &["modem"]),
        PresetDefinition::new("restart-modem", "AT+CFUN=1,1", RiskLevel::Dangerous, &["modem"]),
        PresetDefinition::new("disable-command-echo", "ATE0", RiskLevel::Write, &["basic"]),
    ];
    assert(definition_view(r@[0]) == builtin_preset_table()[0]);
    assert(definition_view(r@[1]) == builtin_preset_table()[1]);
    assert(definition_view(r@[2]) == builtin_preset_table()[2]);
    assert(definition_view(r@[3]) == builtin_preset_table()[3]);
    assert(definition_view(r@[4]) == builtin_preset_table()[4]);
    assert(definition_view(r@[5]) == builtin_preset_table()[5]);
    assert(definition_view(r@[6]) == builtin_preset_table()[6]);
    assert(definition_view(r@[7]) == builtin_preset_table()[7]);
    assert(definition_view(r@[8]) == builtin_preset_table()[8]);
    assert(definition_view(r@[9]) == builtin_preset_table()[9]);
    assert(definition_view(r@[10]) == builtin_preset_table()[10]);
    assert(definition_view(r@[11]) == builtin_preset_table()[11]);
    assert(definition_view(r@[12]) == builtin_preset_table()[12]);
    assert(definition_view(r@[13]) == builtin_preset_table()[13]);
    assert(definition_view(r@[14]) == builtin_preset_table()[14]);
    assert(definition_view(r@[15]) == builtin_preset_table()[15]);
    assert(definition_view(r@[16]) == builtin_preset_table()[16]);
    assert(definition_view(r@[17]) == builtin_preset_table()[17]);
    assert(definition_view(r@[18]) == builtin_preset_table()[18]);
    assert(definition_view(r@[19]) == builtin_preset_table()[19]);
    assert(definition_view(r@[20]) == builtin_preset_table()[20]);
    assert(definition_view(r@[21]) == builtin_preset_table()[21]);
    assert(definition_view(r@[22]) == builtin_preset_table()[22]);
    assert(definition_view(r@[23]) == builtin_preset_table()[23]);
    assert(definition_view(r@[24]) == builtin_preset_table()[24]);
    assert(definition_view(r@[25]) == builtin_preset_table()[25]);
    assert(definition_view(r@[26]) == builtin_preset_table()[26]);
    assert(definition_view(r@[27]) == builtin_preset_table()[27]);
    assert(definition_view(r@[28]) == builtin_preset_table()[28]);
    assert(definition_view(r@[29]) == builtin_preset_table()[29]);
    assert(definition_view(r@[30]) == builtin_preset_table()[30]);
    assert(definition_view(r@[31]) == builtin_preset_table()[31]);
    assert(definition_view(r@[32]) == builtin_preset_table()[32]);
    assert(definition_view(r@[33]) == builtin_preset_table()[33]);
    assert(definition_view(r@[34]) == builtin_preset_table()[34]);
    assert(definition_view(r@[35]) == builtin_preset_table()[35]);
    assert(definition_view(r@[36]) == builtin_preset_table()[36]);
    assert(definition_view(r@[37]) == builtin_preset_table()[37]);
    assert(definition_view(r@[38]) == builtin_preset_table()[38]);
    assert(definition_view(r@[39]) == builtin_preset_table()[39]);
    assert(definition_view(r@[40]) == builtin_preset_table()[40]);
    assert(definition_view(r@[41]) == builtin_preset_table()[41]);
    assert(definition_view(r@[42]) == builtin_preset_table()[42]);
    assert(definition_view(r@[43]) == builtin_preset_table()[43]);
    assert(definition_view(r@[44]) == builtin_preset_table()[44]);
    assert(r@.map_values(|d: PresetDefinition| definition_view(d)) =~= builtin_preset_table());
    r
}

/// The built-in presets, each from the built-in origin, in the order of
/// `builtin_preset_table`.
pub fn builtins() -> (r: Vec<Preset>)
    ensures
        r.len() == builtin_preset_table().len(),
        forall|i: int|
            0 <= i < r.len() ==> {
                let row = #[trigger] builtin_preset_table()[i];
                &&& r@[i].name@ == row.0
                &&& r@[i].command@ == row.1
                &&& r@[i].declared_risk == row.2
                &&& r@[i].risk == crate::presets::model::preset_effective_risk(row.2, row.1)
                &&& crate::text::strings_view(r@[i].categories@) == row.3
                &&& r@[i].timeout_secs == row.4
                &&& r@[i].origin == PresetOrigin::BuiltIn
            },
{
    let defs = builtin_definitions();
    let ghost d = defs@;
    let r = definitions_into_presets(defs, PresetOrigin::BuiltIn);
    assert forall|i: int| 0 <= i < r.len() implies {
        let row = #[trigger] builtin_preset_table()[i];
        &&& r@[i].name@ == row.0
        &&& r@[i].command@ == row.1
        &&& r@[i].declared_risk == row.2
        &&& r@[i].risk == crate::presets::model::preset_effective_risk(row.2, row.1)
        &&& crate::text::strings_view(r@[i].categories@) == row.3
        &&& r@[i].timeout_secs == row.4
        &&& r@[i].origin == PresetOrigin::BuiltIn
    } by {
        assert(preset_from_definition(r@[i], d[i], PresetOrigin::BuiltIn));
        assert(definition_view(d[i]) == builtin_preset_table()[i]);
    }
    r
}

/// No two built-in presets share a name.
#[verifier::rlimit(100)]
pub proof fn lemma_builtin_preset_names_distinct()
    ensures
        forall|i: int, j: int|
            0 <= i < j < builtin_preset_table().len() ==> builtin_preset_table()[i].0
                != builtin_preset_table()[j].0,
{
    reveal_strlit("modem-response");
    reveal_strlit("modem-info");
    reveal_strlit("manufacturer");
    reveal_strlit("model");
    reveal_strlit("firmware-revision");
    reveal_strlit("imei");
    reveal_strlit("sim-pin-status");
    reveal_strlit("imsi");
    reveal_strlit("radio-stack");
    reveal_strlit("radio-stack-capabilities");
    reveal_strlit("current-operator");
    reveal_strlit("available-operators");
    reveal_strlit("operator-format-numeric");
    reveal_strlit("operator-auto-selection");
    reveal_strlit("circuit-registration");
    reveal_strlit("gprs-registration");
    reveal_strlit("eps-registration");
    reveal_strlit("enable-circuit-registration-detail");
    reveal_strlit("enable-gprs-registration-detail");
    reveal_strlit("enable-eps-registration-detail");
    reveal_strlit("enable-eps-registration-cause");
    reveal_strlit("enable-eps-registration-extended");
    reveal_strlit("signal-quality");
    reveal_strlit("extended-signal-quality");
    reveal_strlit("extended-signal-capabilities");
    reveal_strlit("pdp-contexts");
    reveal_strlit("pdp-auth-settings");
    reveal_strlit("pdp-auth-capabilities");
    reveal_strlit("packet-attach");
    reveal_strlit("active-pdp-contexts");
    reveal_strlit("pdp-addresses");
    reveal_strlit("pdp-address-capabilities");
    reveal_strlit("pdp-connection-details");
    reveal_strlit("extended-error-report");
    reveal_strlit("error-reporting-status");
    reveal_strlit("enable-verbose-errors");
    reveal_strlit("modem-activity-status");
    reveal_strlit("sms-service-support");
    reveal_strlit("sms-format");
    reveal_strlit("sms-storage");
    reveal_strlit("modem-functionality");
    reveal_strlit("set-modem-minimum-functionality");
    reveal_strlit("set-modem-full-functionality");
    reveal_strlit("restart-modem");
    reveal_strlit("disable-command-echo");
    let t = builtin_preset_table();
    assert(t[0].0.len() == 14);
    assert(t[1].0.len() == 10);
    assert(t[2].0.len() == 12);
    assert(t[3].0.len() == 5);
    assert(t[4].0.len() == 17);
    assert(t[5].0.len() == 4);
    assert(t[6].0.len() == 14);
    assert(t[7].0.len() == 4);
    assert(t[8].0.len() == 11);
    assert(t[9].0.len() == 24);
    assert(t[10].0.len() == 16);
    assert(t[11].0.len() == 19);
    assert(t[12].0.len() == 23);
    assert(t[13].0.len() == 23);
    assert(t[14].0.len() == 20);
    assert(t[15].0.len() == 17);
    assert(t[16].0.len() == 16);
    assert(t[17].0.len() == 34);
    assert(t[18].0.len() == 31);
    assert(t[19].0.len() == 30);
    assert(t[20].0.len() == 29);
    assert(t[21].0.len() == 32);
    assert(t[22].0.len() == 14);
    assert(t[23].0.len() == 23);
    assert(t[24].0.len() == 28);
    assert(t[25].0.len() == 12);
    assert(t[26].0.len() == 17);
    assert(t[27].0.len() == 21);
    assert(t[28].0.len() == 13);
    assert(t[29].0.len() == 19);
    assert(t[30].0.len() == 13);
    assert(t[31].0.len() == 24);
    assert(t[32].0.len() == 22);
    assert(t[33].0.len() == 21);
    assert(t[34].0.len() == 22);
    assert(t[35].0.len() == 21);
    assert(t[36].0.len() == 21);
    assert(t[37].0.len() == 19);
    assert(t[38].0.len() == 10);
    assert(t[39].0.len() == 11);
    assert(t[40].0.len() == 19);
    assert(t[41].0.len() == 31);
    assert(t[42].0.len() == 28);
    assert(t[43].0.len() == 13);
    assert(t[44].0.len() == 20);
    assert(t[0].0[0] == 'm' && t[6].0[0] == 's');
    assert(t[0].0[0] == 'm' && t[22].0[0] == 's');
    assert(t[1].0[0] == 'm' && t[38].0[0] == 's');
    assert(t[2].0[0] == 'm' && t[25].0[0] == 'p');
    assert(t[4].0[0] == 'f' && t[15].0[0] == 'g');
    assert(t[4].0[0] == 'f' && t[26].0[0] == 'p');
    assert(t[5].0[2] == 'e' && t[7].0[2] == 's');
    assert(t[6].0[2] == 'm' && t[22].0[2] == 'g');
    assert(t[8].0[0] == 'r' && t[39].0[0] == 's');
    assert(t[9].0[0] == 'r' && t[31].0[0] == 'p');
    assert(t[10].0[0] == 'c' && t[16].0[0] == 'e');
    assert(t[11].0[1] == 'v' && t[29].0[1] == 'c');
    assert(t[11].0[0] == 'a' && t[37].0[0] == 's');
    assert(t[11].0[0] == 'a' && t[40].0[0] == 'm');
    assert(t[12].0[9] == 'f' && t[13].0[9] == 'a');
    assert(t[12].0[0] == 'o' && t[23].0[0] == 'e');
    assert(t[13].0[0] == 'o' && t[23].0[0] == 'e');
    assert(t[14].0[0] == 'c' && t[44].0[0] == 'd');
    assert(t[15].0[0] == 'g' && t[26].0[0] == 'p');
    assert(t[18].0[0] == 'e' && t[41].0[0] == 's');
    assert(t[24].0[0] == 'e' && t[42].0[0] == 's');
    assert(t[27].0[0] == 'p' && t[33].0[0] == 'e');
    assert(t[27].0[0] == 'p' && t[35].0[0] == 'e');
    assert(t[27].0[0] == 'p' && t[36].0[0] == 'm');
    assert(t[28].0[1] == 'a' && t[30].0[1] == 'd');
    assert(t[28].0[0] == 'p' && t[43].0[0] == 'r');
    assert(t[29].0[0] == 'a' && t[37].0[0] == 's');
    assert(t[29].0[0] == 'a' && t[40].0[0] == 'm');
    assert(t[30].0[0] == 'p' && t[43].0[0] == 'r');
    assert(t[32].0[0] == 'p' && t[34].0[0] == 'e');
    assert(t[33].0[1] == 'x' && t[35].0[1] == 'n');
    assert(t[33].0[0] == 'e' && t[36].0[0] == 'm');
    assert(t[35].0[0] == 'e' && t[36].0[0] == 'm');
    assert(t[37].0[0] == 's' && t[40].0[0] == 'm');
    assert forall|i: int, j: int| 0 <= i < j < t.len() implies t[i].0 != t[j].0 by {
        assert(i == 0 || i == 1 || i == 2 || i == 3 || i == 4 || i == 5 || i == 6 || i == 7 ||
            i == 8 || i == 9 || i == 10 || i == 11 || i == 12 || i == 13 || i == 14 ||
            i == 15 || i == 16 || i == 17 || i == 18 || i == 19 || i == 20 || i == 21 ||
            i == 22 || i == 23 || i == 24 || i == 25 || i == 26 || i == 27 || i == 28 ||
            i == 29 || i == 30 || i == 31 || i == 32 || i == 33 || i == 34 || i == 35 ||
            i == 36 || i == 37 || i == 38 || i == 39 || i == 40 || i == 41 || i == 42 ||
            i == 43 || i == 44);
        assert(j == 0 || j == 1 || j == 2 || j == 3 || j == 4 || j == 5 || j == 6 || j == 7 ||
            j == 8 || j == 9 || j == 10 || j == 11 || j == 12 || j == 13 || j == 14 ||
            j == 15 || j == 16 || j == 17 || j == 18 || j == 19 || j == 20 || j == 21 ||
            j == 22 || j == 23 || j == 24 || j == 25 || j == 26 || j == 27 || j == 28 ||
            j == 29 || j == 30 || j == 31 || j == 32 || j == 33 || j == 34 || j == 35 ||
            j == 36 || j == 37 || j == 38 || j == 39 || j == 40 || j == 41 || j == 42 ||
            j == 43 || j == 44);
    }
}

/// Presets named as the rows of the built-in table, in order, have
/// distinct names.
pub proof fn lemma_builtin_names_unique(v: Seq<Preset>)
    requires
        v.len() == builtin_preset_table().len(),
        forall|i: int| 0 <= i < v.len() ==> #[trigger] v[i].name@ == builtin_preset_table()[i].0,
    ensures
        crate::presets::loader::preset_names_unique(v),
{
    lemma_builtin_preset_names_distinct();
    assert forall|i: int, j: int| 0 <= i < j < v.len() implies v[i].name@ != v[j].name@ by {
        assert(v[i].name@ == builtin_preset_table()[i].0);
        assert(v[j].name@ == builtin_preset_table()[j].0);
    }
}

} // verus!
