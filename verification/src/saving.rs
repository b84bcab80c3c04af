//! What loading gives back of a saved configuration.
use vstd::prelude::*;
use crate::config::{
    bridge_json, channel_from, default_view, is_blank, port_from_milli, channel_json, clash_json, config_from, config_json, http_target, target_values, targets_of,
    vpn_json, BridgeView, ChannelView, ConfigView, TargetView,
};
use crate::json::{
    lookup, model_flag, model_get, model_number, model_path, model_string, model_string_list, model_walk, str_models,
    string_items, JsonModel,
};
use crate::json_parse::{parse_text, JsonError};
use crate::json_write::write_model;
use crate::json::Json;
use crate::roundtrip::{lemma_every_json_reads_back, lemma_split_after, lemma_split_plain};
use crate::text::split_on;

verus! {

/// No dot in a key.
pub open spec fn plain_key(k: Seq<char>) -> bool {
    forall|i: int| 0 <= i < k.len() ==> k[i] != '.'
}

/// The member of an object found at index `i`: its key is `key` and no
/// member before it has that key.
pub proof fn lemma_lookup_at(fields: Seq<(Seq<char>, JsonModel)>, i: int, key: Seq<char>)
    requires
        0 <= i < fields.len(),
        fields[i].0 == key,
        forall|j: int| 0 <= j < i ==> fields[j].0 != key,
    ensures
        lookup(fields, key) == Some(fields[i].1),
    decreases i,
{
    if i > 0 {
        assert(fields[0].0 != key);
        lemma_lookup_at(fields.skip(1), i - 1, key);
    }
}

/// A two-part dotted path reads a member of a member.
pub proof fn lemma_path2(root: JsonModel, a: Seq<char>, b: Seq<char>)
    requires
        plain_key(a),
        plain_key(b),
    ensures
        model_path(root, a + seq!['.'] + b) == match model_get(root, a) {
            Some(w) => model_get(w, b),
            None => None,
        },
{
    lemma_split_plain(a, '.');
    lemma_split_after(a, b, '.');
    assert(split_on(a + seq!['.'] + b, '.') =~= seq![a, b]);
    let keys = seq![a, b];
    assert(keys.skip(1) =~= seq![b]);
    assert(seq![b].skip(1) =~= Seq::<Seq<char>>::empty());
    match model_get(root, a) {
        Some(w) => {
            match model_get(w, b) {
                Some(x) => {
                    assert(model_walk(x, seq![b].skip(1)) == Some(x));
                },
                None => {},
            }
            assert(model_walk(w, seq![b]) == model_get(w, b));
        },
        None => {},
    }
}

/// A one-part path reads a member.
pub proof fn lemma_path1(root: JsonModel, a: Seq<char>)
    requires
        plain_key(a),
    ensures
        model_path(root, a) == model_get(root, a),
{
    lemma_split_plain(a, '.');
    assert(seq![a].skip(1) =~= Seq::<Seq<char>>::empty());
    match model_get(root, a) {
        Some(x) => {
            assert(model_walk(x, seq![a].skip(1)) == Some(x));
        },
        None => {},
    }
}


/// The sections of a saved configuration.
pub proof fn lemma_saved_sections(c: ConfigView)
    ensures
        model_get(config_json(c), "interval_seconds"@) == Some(JsonModel::Num(c.interval as int)),
        model_get(config_json(c), "timeout_seconds"@) == Some(JsonModel::Num(c.timeout as int)),
        model_get(config_json(c), "verify_ssl"@) == Some(JsonModel::Bool(c.verify_ssl)),
        model_get(config_json(c), "clash"@) == Some(clash_json(c.clash)),
        model_get(config_json(c), "vpn"@) == Some(vpn_json(c)),
        model_get(config_json(c), "direct"@) == Some(channel_json(c.direct)),
        model_get(config_json(c), "ai_bridge"@) == Some(bridge_json(c.bridge)),
{
    reveal_strlit("interval_seconds");
    reveal_strlit("timeout_seconds");
    reveal_strlit("verify_ssl");
    reveal_strlit("clash");
    reveal_strlit("vpn");
    reveal_strlit("direct");
    reveal_strlit("ai_bridge");
    match config_json(c) {
        JsonModel::Obj(f) => {
            assert(f[0].0.len() == 16 && f[1].0.len() == 15 && f[2].0.len() == 10 && f[3].0.len() == 5);
            assert(f[4].0.len() == 3 && f[5].0.len() == 6 && f[6].0.len() == 9);
            lemma_lookup_at(f, 0, "interval_seconds"@);
            lemma_lookup_at(f, 1, "timeout_seconds"@);
            lemma_lookup_at(f, 2, "verify_ssl"@);
            lemma_lookup_at(f, 3, "clash"@);
            lemma_lookup_at(f, 4, "vpn"@);
            lemma_lookup_at(f, 5, "direct"@);
            lemma_lookup_at(f, 6, "ai_bridge"@);
        },
        _ => {},
    }
}


/// Targets that are plain HTTP addresses, as the saved file lists them.
pub open spec fn plain_http(ts: Seq<TargetView>) -> bool {
    forall|i: int| 0 <= i < ts.len() ==> #[trigger] ts[i] == http_target(ts[i].value, true)
}

pub proof fn lemma_targets_back(ts: Seq<TargetView>)
    requires
        plain_http(ts),
    ensures
        targets_of(target_values(ts)) == ts,
    decreases ts.len(),
{
    if ts.len() > 0 {
        let u = ts.drop_last();
        assert(plain_http(u)) by {
            assert forall|i: int| 0 <= i < u.len() implies #[trigger] u[i] == http_target(u[i].value, true) by {
                assert(u[i] == ts[i]);
            }
        }
        lemma_targets_back(u);
        assert(target_values(ts).drop_last() =~= target_values(u));
        assert(ts[ts.len() - 1] == http_target(ts[ts.len() - 1].value, true));
        assert(ts =~= u.push(ts.last()));
    }
}

pub proof fn lemma_strings_back(s: Seq<Seq<char>>)
    ensures
        string_items(str_models(s)) == s,
    decreases s.len(),
{
    if s.len() > 0 {
        lemma_strings_back(s.drop_last());
        assert(str_models(s).drop_last() =~= str_models(s.drop_last()));
        assert(s =~= s.drop_last().push(s.last()));
    }
}

/// A member, when present, holds `v`; when absent, `v` is the fallback.
pub open spec fn reads_string(sec: JsonModel, k: Seq<char>, v: Seq<char>, fb: Seq<char>) -> bool {
    model_get(sec, k) == Some(JsonModel::Str(v)) || (model_get(sec, k) is None && v == fb)
}

/// A channel section read back: every member present with its value, or
/// absent where the value is the fallback's.
pub proof fn lemma_channel_back(root: JsonModel, key: Seq<char>, sec: JsonModel, cv: ChannelView, fb: ChannelView)
    requires
        plain_key(key),
        model_get(root, key) == Some(sec),
        model_get(sec, "enabled"@) == Some(JsonModel::Bool(cv.enabled)),
        model_get(sec, "name"@) == Some(JsonModel::Str(cv.name)),
        cv.name.len() > 0,
        model_get(sec, "good_ms"@) == Some(JsonModel::Num(cv.good_ms)),
        model_get(sec, "warn_ms"@) == Some(JsonModel::Num(cv.warn_ms)),
        model_get(sec, "targets"@) == Some(JsonModel::Arr(target_values(cv.targets))),
        plain_http(cv.targets),
        reads_string(sec, "proxy"@, cv.proxy, fb.proxy),
        reads_string(sec, "controller"@, cv.controller, fb.controller),
        reads_string(sec, "controller_secret"@, cv.controller_secret, fb.controller_secret),
    ensures
        channel_from(root, key, fb) == cv,
{
    reveal_strlit(".enabled");
    reveal_strlit("enabled");
    reveal_strlit(".name");
    reveal_strlit("name");
    reveal_strlit(".good_ms");
    reveal_strlit("good_ms");
    reveal_strlit(".warn_ms");
    reveal_strlit("warn_ms");
    reveal_strlit(".targets");
    reveal_strlit("targets");
    reveal_strlit(".proxy");
    reveal_strlit("proxy");
    reveal_strlit(".controller");
    reveal_strlit("controller");
    reveal_strlit(".controller_secret");
    reveal_strlit("controller_secret");
    assert(key + ".enabled"@ =~= key + seq!['.'] + "enabled"@);
    assert(key + ".name"@ =~= key + seq!['.'] + "name"@);
    assert(key + ".good_ms"@ =~= key + seq!['.'] + "good_ms"@);
    assert(key + ".warn_ms"@ =~= key + seq!['.'] + "warn_ms"@);
    assert(key + ".targets"@ =~= key + seq!['.'] + "targets"@);
    assert(key + ".proxy"@ =~= key + seq!['.'] + "proxy"@);
    assert(key + ".controller"@ =~= key + seq!['.'] + "controller"@);
    assert(key + ".controller_secret"@ =~= key + seq!['.'] + "controller_secret"@);
    lemma_path2(root, key, "enabled"@);
    lemma_path2(root, key, "name"@);
    lemma_path2(root, key, "good_ms"@);
    lemma_path2(root, key, "warn_ms"@);
    lemma_path2(root, key, "targets"@);
    lemma_path2(root, key, "proxy"@);
    lemma_path2(root, key, "controller"@);
    lemma_path2(root, key, "controller_secret"@);
    lemma_targets_back(cv.targets);
}


proof fn lemma_clash_members(c: ChannelView)
    ensures
        model_get(clash_json(c), "enabled"@) == Some(JsonModel::Bool(c.enabled)),
        model_get(clash_json(c), "name"@) == Some(JsonModel::Str(c.name)),
        model_get(clash_json(c), "proxy"@) == Some(JsonModel::Str(c.proxy)),
        model_get(clash_json(c), "controller"@) == Some(JsonModel::Str(c.controller)),
        model_get(clash_json(c), "controller_secret"@) == Some(JsonModel::Str(c.controller_secret)),
        model_get(clash_json(c), "targets"@) == Some(JsonModel::Arr(target_values(c.targets))),
        model_get(clash_json(c), "good_ms"@) == Some(JsonModel::Num(c.good_ms)),
        model_get(clash_json(c), "warn_ms"@) == Some(JsonModel::Num(c.warn_ms)),
{
    reveal_strlit("enabled");
    reveal_strlit("name");
    reveal_strlit("proxy");
    reveal_strlit("controller");
    reveal_strlit("controller_secret");
    reveal_strlit("targets");
    reveal_strlit("good_ms");
    reveal_strlit("warn_ms");
    match clash_json(c) {
        JsonModel::Obj(f) => {
            assert(f[0].0[0] == 'e' && f[0].0.len() == 7 && f[1].0.len() == 4 && f[2].0.len() == 5);
            assert(f[3].0.len() == 10 && f[4].0.len() == 17 && f[5].0[0] == 't' && f[5].0.len() == 7);
            assert(f[6].0[0] == 'g' && f[6].0.len() == 7 && f[7].0[0] == 'w');
            lemma_lookup_at(f, 0, "enabled"@);
            lemma_lookup_at(f, 1, "name"@);
            lemma_lookup_at(f, 2, "proxy"@);
            lemma_lookup_at(f, 3, "controller"@);
            lemma_lookup_at(f, 4, "controller_secret"@);
            lemma_lookup_at(f, 5, "targets"@);
            lemma_lookup_at(f, 6, "good_ms"@);
            lemma_lookup_at(f, 7, "warn_ms"@);
        },
        _ => {},
    }
}

proof fn lemma_direct_members(c: ChannelView)
    ensures
        model_get(channel_json(c), "enabled"@) == Some(JsonModel::Bool(c.enabled)),
        model_get(channel_json(c), "name"@) == Some(JsonModel::Str(c.name)),
        model_get(channel_json(c), "targets"@) == Some(JsonModel::Arr(target_values(c.targets))),
        model_get(channel_json(c), "good_ms"@) == Some(JsonModel::Num(c.good_ms)),
        model_get(channel_json(c), "warn_ms"@) == Some(JsonModel::Num(c.warn_ms)),
        model_get(channel_json(c), "proxy"@) is None,
        model_get(channel_json(c), "controller"@) is None,
        model_get(channel_json(c), "controller_secret"@) is None,
{
    reveal_strlit("enabled");
    reveal_strlit("name");
    reveal_strlit("targets");
    reveal_strlit("good_ms");
    reveal_strlit("warn_ms");
    reveal_strlit("proxy");
    reveal_strlit("controller");
    reveal_strlit("controller_secret");
    match channel_json(c) {
        JsonModel::Obj(f) => {
            assert(f[0].0[0] == 'e' && f[0].0.len() == 7 && f[1].0.len() == 4 && f[2].0[0] == 't');
            assert(f[2].0.len() == 7 && f[3].0[0] == 'g' && f[3].0.len() == 7 && f[4].0[0] == 'w');
            assert(f[4].0.len() == 7);
            lemma_lookup_at(f, 0, "enabled"@);
            lemma_lookup_at(f, 1, "name"@);
            lemma_lookup_at(f, 2, "targets"@);
            lemma_lookup_at(f, 3, "good_ms"@);
            lemma_lookup_at(f, 4, "warn_ms"@);
            lemma_lookup_absent(f, "proxy"@);
            lemma_lookup_absent(f, "controller"@);
            lemma_lookup_absent(f, "controller_secret"@);
        },
        _ => {},
    }
}

/// No member has the key: nothing is found.
pub proof fn lemma_lookup_absent(fields: Seq<(Seq<char>, JsonModel)>, key: Seq<char>)
    requires
        forall|j: int| 0 <= j < fields.len() ==> fields[j].0 != key,
    ensures
        lookup(fields, key) is None,
    decreases fields.len(),
{
    if fields.len() > 0 {
        assert(fields[0].0 != key);
        lemma_lookup_absent(fields.skip(1), key);
    }
}

proof fn lemma_vpn_members(c: ConfigView)
    ensures
        model_get(vpn_json(c), "enabled"@) == Some(JsonModel::Bool(c.vpn.enabled)),
        model_get(vpn_json(c), "name"@) == Some(JsonModel::Str(c.vpn.name)),
        model_get(vpn_json(c), "adapter_keywords"@) == Some(JsonModel::Arr(str_models(c.adapter_keywords))),
        model_get(vpn_json(c), "process_names"@) == Some(JsonModel::Arr(str_models(c.process_names))),
        model_get(vpn_json(c), "targets"@) == Some(JsonModel::Arr(Seq::empty())),
        model_get(vpn_json(c), "allow_icmp"@) == Some(JsonModel::Bool(c.allow_icmp)),
        model_get(vpn_json(c), "good_ms"@) == Some(JsonModel::Num(c.vpn.good_ms)),
        model_get(vpn_json(c), "warn_ms"@) == Some(JsonModel::Num(c.vpn.warn_ms)),
        model_get(vpn_json(c), "proxy"@) is None,
        model_get(vpn_json(c), "controller"@) is None,
        model_get(vpn_json(c), "controller_secret"@) is None,
{
    reveal_strlit("enabled");
    reveal_strlit("name");
    reveal_strlit("adapter_keywords");
    reveal_strlit("process_names");
    reveal_strlit("targets");
    reveal_strlit("allow_icmp");
    reveal_strlit("good_ms");
    reveal_strlit("warn_ms");
    reveal_strlit("proxy");
    reveal_strlit("controller");
    reveal_strlit("controller_secret");
    match vpn_json(c) {
        JsonModel::Obj(f) => {
            assert(f[0].0[0] == 'e' && f[0].0.len() == 7 && f[1].0.len() == 4 && f[2].0.len() == 16);
            assert(f[3].0.len() == 13 && f[4].0[0] == 't' && f[4].0.len() == 7 && f[5].0.len() == 10);
            assert(f[5].0[0] == 'a' && f[6].0[0] == 'g' && f[6].0.len() == 7 && f[7].0[0] == 'w');
            assert(f[7].0.len() == 7);
            lemma_lookup_at(f, 0, "enabled"@);
            lemma_lookup_at(f, 1, "name"@);
            lemma_lookup_at(f, 2, "adapter_keywords"@);
            lemma_lookup_at(f, 3, "process_names"@);
            lemma_lookup_at(f, 4, "targets"@);
            lemma_lookup_at(f, 5, "allow_icmp"@);
            lemma_lookup_at(f, 6, "good_ms"@);
            lemma_lookup_at(f, 7, "warn_ms"@);
            lemma_lookup_absent(f, "proxy"@);
            lemma_lookup_absent(f, "controller"@);
            lemma_lookup_absent(f, "controller_secret"@);
        },
        _ => {},
    }
}

proof fn lemma_bridge_members(b: BridgeView)
    ensures
        model_get(bridge_json(b), "enabled"@) == Some(JsonModel::Bool(b.enabled)),
        model_get(bridge_json(b), "host"@) == Some(JsonModel::Str(b.host)),
        model_get(bridge_json(b), "port"@) == Some(JsonModel::Num(b.port * 1000)),
        model_get(bridge_json(b), "token"@) == Some(JsonModel::Str(b.token)),
{
    reveal_strlit("enabled");
    reveal_strlit("host");
    reveal_strlit("port");
    reveal_strlit("token");
    match bridge_json(b) {
        JsonModel::Obj(f) => {
            assert(f[0].0.len() == 7 && f[1].0[0] == 'h' && f[1].0.len() == 4 && f[2].0[0] == 'p');
            assert(f[2].0.len() == 4 && f[3].0.len() == 5);
            lemma_lookup_at(f, 0, "enabled"@);
            lemma_lookup_at(f, 1, "host"@);
            lemma_lookup_at(f, 2, "port"@);
            lemma_lookup_at(f, 3, "token"@);
        },
        _ => {},
    }
}


/// A configuration that its saved file holds all of: timings that need no
/// raising, plain HTTP targets (none for the VPN channel), channel names
/// given, no proxy or controller settings where the file has no place for
/// them, keyword and program lists given, and a port.
pub open spec fn saveable(c: ConfigView) -> bool {
    &&& c.interval >= 1000
    &&& c.timeout >= 500
    &&& plain_http(c.clash.targets)
    &&& plain_http(c.direct.targets)
    &&& c.vpn.targets.len() == 0
    &&& c.clash.name.len() > 0 && c.vpn.name.len() > 0 && c.direct.name.len() > 0
    &&& c.vpn.proxy.len() == 0 && c.vpn.controller.len() == 0 && c.vpn.controller_secret.len() == 0
    &&& c.direct.proxy.len() == 0 && c.direct.controller.len() == 0 && c.direct.controller_secret.len() == 0
    &&& c.adapter_keywords.len() > 0
    &&& c.process_names.len() > 0
    &&& c.bridge.port != 0
}

/// Loading what was saved gives the configuration back, under the path it
/// was loaded from.
pub proof fn lemma_saved_config_reads_back(path: Seq<char>, c: ConfigView)
    requires
        saveable(c),
    ensures
        config_from(path, config_json(c)) == (ConfigView { path, ..c }),
{
    let root = config_json(c);
    let d = default_view();
    reveal_strlit("interval_seconds");
    reveal_strlit("timeout_seconds");
    reveal_strlit("verify_ssl");
    reveal_strlit("clash");
    reveal_strlit("vpn");
    reveal_strlit("direct");
    reveal_strlit("ai_bridge");
    reveal_strlit("vpn.adapter_keywords");
    reveal_strlit("adapter_keywords");
    reveal_strlit("vpn.process_names");
    reveal_strlit("process_names");
    reveal_strlit("vpn.allow_icmp");
    reveal_strlit("allow_icmp");
    reveal_strlit("ai_bridge.enabled");
    reveal_strlit("enabled");
    reveal_strlit("ai_bridge.host");
    reveal_strlit("host");
    reveal_strlit("ai_bridge.port");
    reveal_strlit("port");
    reveal_strlit("ai_bridge.token");
    reveal_strlit("token");
    reveal_strlit("");
    lemma_saved_sections(c);
    lemma_clash_members(c.clash);
    lemma_direct_members(c.direct);
    lemma_vpn_members(c);
    lemma_bridge_members(c.bridge);
    lemma_path1(root, "interval_seconds"@);
    lemma_path1(root, "timeout_seconds"@);
    lemma_path1(root, "verify_ssl"@);
    assert(target_values(c.vpn.targets) =~= Seq::<JsonModel>::empty());
    lemma_channel_back(root, "clash"@, clash_json(c.clash), c.clash, d.clash);
    assert(c.vpn.proxy =~= d.vpn.proxy && c.vpn.controller =~= d.vpn.controller);
    assert(c.vpn.controller_secret =~= d.vpn.controller_secret);
    assert(c.direct.proxy =~= d.direct.proxy && c.direct.controller =~= d.direct.controller);
    assert(c.direct.controller_secret =~= d.direct.controller_secret);
    lemma_channel_back(root, "vpn"@, vpn_json(c), c.vpn, d.vpn);
    lemma_channel_back(root, "direct"@, channel_json(c.direct), c.direct, d.direct);
    assert("vpn.adapter_keywords"@ =~= "vpn"@ + seq!['.'] + "adapter_keywords"@);
    assert("vpn.process_names"@ =~= "vpn"@ + seq!['.'] + "process_names"@);
    assert("vpn.allow_icmp"@ =~= "vpn"@ + seq!['.'] + "allow_icmp"@);
    assert("ai_bridge.enabled"@ =~= "ai_bridge"@ + seq!['.'] + "enabled"@);
    assert("ai_bridge.host"@ =~= "ai_bridge"@ + seq!['.'] + "host"@);
    assert("ai_bridge.port"@ =~= "ai_bridge"@ + seq!['.'] + "port"@);
    assert("ai_bridge.token"@ =~= "ai_bridge"@ + seq!['.'] + "token"@);
    lemma_path2(root, "vpn"@, "adapter_keywords"@);
    lemma_path2(root, "vpn"@, "process_names"@);
    lemma_path2(root, "vpn"@, "allow_icmp"@);
    lemma_path2(root, "ai_bridge"@, "enabled"@);
    lemma_path2(root, "ai_bridge"@, "host"@);
    lemma_path2(root, "ai_bridge"@, "port"@);
    lemma_path2(root, "ai_bridge"@, "token"@);
    lemma_strings_back(c.adapter_keywords);
    lemma_strings_back(c.process_names);
    assert(model_string_list(root, "vpn.adapter_keywords"@) == c.adapter_keywords);
    assert(model_string_list(root, "vpn.process_names"@) == c.process_names);
    let p = c.bridge.port as int;
    assert(1 <= p <= 65535);
    assert((p * 1000) / 1000 == p) by (nonlinear_arith);
    assert(port_from_milli(p * 1000) == c.bridge.port);
    assert(config_from(path, root).bridge == c.bridge);
    assert(config_from(path, root) =~= (ConfigView { path, ..c }));
}


/// The file that saving writes reads back as the configuration: `j` is the
/// JSON value `Config::to_json` gives for `c`, and the text is what
/// `to_string_pretty` makes of it. `Config::from_text` on that text takes
/// the branch that parses it (it is not blank) and so gives `c` back under
/// the path it was read from.
pub proof fn lemma_saved_file_reads_back(path: Seq<char>, c: ConfigView, j: Json)
    requires
        saveable(c),
        j.model() == config_json(c),
    ensures
        !is_blank(write_model(config_json(c), 0, true)),
        parse_text(write_model(config_json(c), 0, true)) == Ok::<JsonModel, JsonError>(config_json(c)),
        config_from(path, config_json(c)) == (ConfigView { path, ..c }),
{
    lemma_every_json_reads_back(j, true);
    lemma_saved_config_reads_back(path, c);
    let t = write_model(config_json(c), 0, true);
    assert(t[0] == '{');
    assert(!crate::text::is_ws('{'));
}

} // verus!
