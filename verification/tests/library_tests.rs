use base64::Engine;
use sha2::Digest;
use std::io::Write;

use momo_core::character_compat::{check_detected_format, ExternalInputKind};
use momo_core::charx::{check_preserved_bytes, check_preserved_file, PreservedSourceSite, StoredSourceFile};
use momo_core::control::{control_operation_key, MomoControlAction, MomoControlRequest};
use momo_core::embedding::{
    check_embedded_batch, check_index_batch_size, finish_reindex, plan_nsg_reindex, reindex_counts, IndexedVector,
    NsgIndexMode,
};
use momo_core::json::{JsonMember, JsonValue};
use momo_core::api::{core_version, RuntimeApiError, RuntimeApiErrorKind};
use momo_core::character_compat::{
    complete_external_card, ensure_size, extract_png_card, parse_external_header, parse_external_json,
    render_character_markdown, valid_jpeg_prefix, CharacterCompatError, Ccv3SpecVersion,
    ExternalCharacterExportFormat, ExternalCharacterImportFormat, PngCardChunk,
};
use momo_core::capability::{
    check_discovery_scheme, check_discovery_size, discovery_bearer, CapabilityError, MAX_DISCOVERY_BYTES,
};
use momo_core::charx::{
    charx_export_entries, screen_entry, parse_charx_package, record_entry, CharxCopyEntry, CharxScan,
    CharxSourceEntry, ZipEntryInfo,
};
use momo_core::config::{ensure_toml_path, ConfigDocument, ConfigError};
use momo_core::crypto::{crypto_is_unlocked, crypto_payload_is_encrypted, crypto_recovery_verifier};
use momo_core::gateway::{
    append_bounded, check_content_length, check_request_parameters, finish_completion, find_event_boundary, is_done_event,
    validate_gateway_messages, ChatFunctionCall, ChatToolCall, ChatUsage, CompletionChoice, GatewayError,
    GatewayMessage, GatewayMessageContent, GatewayMessageRole, ProviderEndpoint, SseDecodeError, SseDecoder,
};
use momo_core::governance::{governed_text, governed_usize, GovernanceError, OverrideMode};
use momo_core::lsb::{
    embed_lsb_carrier, extract_lsb_carrier, extract_lsb_png, embed_lsb_png, lsb_capacity,
    read_bytes, LsbCarrierError, LsbPayload, LsbPayloadType, LSB_HEADER_BYTES,
};
use momo_core::lsb_files::{
    check_payload_type, check_preserved_carrier, plan_lsb_carrier, validate_image_extension,
    EmbedLsbImageRequest, LsbCarrierPlan, LsbCarrierSource, LsbExportPayload, LsbImageFormat,
};
use momo_core::local_data::{contains_frontmatter, validate_runtime_character, CharacterFields};
use momo_core::memory::{check_scoped_memory_request, dmw_retrieval_budget, effective_dmw_retrieval_budget, weighted_space_budgets, MemorySpaceSource};
use momo_core::orchestration::{
    maintenance_attempt_step, maintenance_batch_key, maintenance_finish_error, maintenance_plan,
    memory_patch_is_noop, require_vision_prompt, MaintenanceAttempt, MaintenancePlan, MaintenanceStep,
    PendingMaintenance, response_character_id, response_conversation_id, user_message_write,
    UserMessageWrite, add_vision_usage, check_persisted_operation, maintenance_write_flags, OperationReplay,
    PersistedOperation,
    resolve_described_input, resolve_multimodal_input, resolve_text_input,
    validate_generated_opaque_identifiers, ImageInputHandling, MaintenanceKind, MomoApiError,
    MomoApiErrorKind,
};
use momo_core::paths::extension_of;
use momo_core::portable::{
    default_host_module_import_order, parse_character_id, validate_asset_path, validate_host_module,
    HostMocModule, MocCompatibility, MocExportPlan, MocModule, MocProtection, PortableError,
};
use momo_core::prompt_spaces::{PromptSpaceId, PromptSpaceSource, PromptSpaces};

fn encode_png_rgba(width: u32, height: u32, rgba: Vec<u8>) -> Result<Vec<u8>, String> {
    let image = image::RgbaImage::from_raw(width, height, rgba).ok_or("buffer size")?;
    let mut out = std::io::Cursor::new(Vec::new());
    image.write_to(&mut out, image::ImageFormat::Png).map_err(|error| error.to_string())?;
    Ok(out.into_inner())
}

fn decode_png_rgba(png: &[u8]) -> Result<(u32, u32, Vec<u8>), String> {
    let image = image::load_from_memory_with_format(png, image::ImageFormat::Png)
        .map_err(|error| error.to_string())?
        .to_rgba8();
    Ok((image.width(), image.height(), image.into_raw()))
}

fn png_fixture(width: u32, height: u32) -> Vec<u8> {
    let mut rgba = Vec::new();
    for y in 0..height {
        for x in 0..width {
            rgba.push((x % 251) as u8);
            rgba.push((y % 241) as u8);
            rgba.push(((x + y) % 239) as u8);
            rgba.push(((x * 3 + y * 5) % 256) as u8);
        }
    }
    encode_png_rgba(width, height, rgba).expect("fixture PNG")
}

#[test]
fn compressed_rgba_round_trip_preserves_alpha() {
    let mut pixels = vec![0xaa; 512 * 4];
    for alpha in pixels.iter_mut().skip(3).step_by(4) {
        *alpha = 0x37;
    }
    let original_alpha = pixels.iter().skip(3).step_by(4).copied().collect::<Vec<_>>();
    let payload = br#"{"name":"MOMO","description":"portable character"}"#;
    let info = embed_lsb_carrier(&mut pixels, 4, LsbPayloadType::CharacterData, payload, true)
        .expect("embed");
    assert!(info.stored_bytes > 0);
    assert_eq!(pixels.iter().skip(3).step_by(4).copied().collect::<Vec<_>>(), original_alpha);
    assert_eq!(
        extract_lsb_carrier(&pixels, 4).expect("extract"),
        LsbPayload { payload_type: LsbPayloadType::CharacterData, compressed: true, bytes: payload.to_vec() }
    );
}

#[test]
fn capacity_failure_does_not_modify_pixels() {
    let mut pixels = vec![0x54; 32 * 3];
    let original = pixels.clone();
    let error = embed_lsb_carrier(&mut pixels, 3, LsbPayloadType::Moc, &[7; 100], false)
        .expect_err("capacity rejection");
    assert!(matches!(error, LsbCarrierError::InsufficientCapacity { .. }));
    assert_eq!(pixels, original);
}

#[test]
fn decoded_pixels_survive_lossless_container_and_tail_changes() {
    let payload = b"the carrier depends on pixels, not a PNG chunk or file tail";
    let mut decoded_pixels = vec![0x80; 384 * 3];
    embed_lsb_carrier(&mut decoded_pixels, 3, LsbPayloadType::CharacterData, payload, false)
        .expect("embed");
    let redecoded_pixels = decoded_pixels.clone();
    let raw = read_bytes(&redecoded_pixels, 3, LSB_HEADER_BYTES + payload.len());
    assert_eq!(&raw[LSB_HEADER_BYTES..], payload);
    assert_eq!(
        extract_lsb_carrier(&redecoded_pixels, 3).expect("extract after rewrap").bytes,
        payload
    );
}

#[test]
fn corruption_is_detected() {
    let mut pixels = vec![0; 384 * 3];
    embed_lsb_carrier(&mut pixels, 3, LsbPayloadType::Charx, b"archive", false).expect("embed");
    let payload_bit = LSB_HEADER_BYTES * 8 + 2;
    // With three channels every sample carries a bit, in order.
    pixels[payload_bit] ^= 1;
    assert_eq!(extract_lsb_carrier(&pixels, 3), Err(LsbCarrierError::ChecksumMismatch));
}

#[test]
fn png_tail_stripping_and_lossless_rewrap_preserve_carrier() {
    let original = png_fixture(128, 128);
    let (width, height, original_pixels) = decode_png_rgba(&original).expect("original PNG");
    let mut tailed = original.clone();
    tailed.extend_from_slice(b"UNRELATED-TRAILING-ARCHIVE");
    let payload = br#"{"schema":"momo.character/0.5","name":"MOMO"}"#;
    let carrier =
        embed_lsb_png(&tailed, LsbPayloadType::CharacterData, payload, true).expect("embed PNG");
    assert!(!carrier.ends_with(b"UNRELATED-TRAILING-ARCHIVE"));
    assert_eq!(extract_lsb_png(&carrier).expect("extract").bytes, payload);

    let (carrier_width, carrier_height, carrier_pixels) =
        decode_png_rgba(&carrier).expect("carrier PNG");
    assert_eq!((carrier_width, carrier_height), (width, height));
    for (before, after) in original_pixels.chunks(4).zip(carrier_pixels.chunks(4)) {
        assert_eq!(before[3], after[3]);
        for channel in 0..3 {
            assert!(before[channel].abs_diff(after[channel]) <= 1);
        }
    }

    let rewrapped = encode_png_rgba(carrier_width, carrier_height, carrier_pixels).expect("lossless rewrap");
    assert_eq!(extract_lsb_png(&rewrapped).expect("extract after rewrap").bytes, payload);
}

#[test]
fn png_dimensions_are_rejected_before_decode() {
    let mut png = png_fixture(16, 16);
    png[16..20].copy_from_slice(&u32::MAX.to_be_bytes());
    png[20..24].copy_from_slice(&u32::MAX.to_be_bytes());
    assert_eq!(extract_lsb_png(&png), Err(LsbCarrierError::ImageTooLarge));
}

#[test]
fn lsb_capacity_counts_color_bits_only() {
    // 10 RGBA pixels: 30 color samples, one bit each, 3 whole bytes.
    assert_eq!(lsb_capacity(&[0; 40], 4), 3);
    assert_eq!(lsb_capacity(&[0; 24], 3), 3);
}

#[test]
fn unknown_payload_code_is_rejected() {
    assert_eq!(LsbPayloadType::try_from_code(9), Err(LsbCarrierError::UnknownPayloadType(9)));
    assert_eq!(LsbPayloadType::try_from_code(2), Ok(LsbPayloadType::Moc));
}

#[test]
fn image_extension_must_match_declared_format() {
    assert!(validate_image_extension("out/card.PNG", LsbImageFormat::Png).is_ok());
    assert!(validate_image_extension("out/card.webp", LsbImageFormat::WebpLossless).is_ok());
    let error = validate_image_extension("out/card.jpg", LsbImageFormat::Png).unwrap_err();
    assert_eq!(error.kind, RuntimeApiErrorKind::InvalidRequest);
    assert_eq!(error.message, "image extension \"jpg\" does not match declared format Png");
    let error = validate_image_extension("out/card", LsbImageFormat::WebpLossless).unwrap_err();
    assert_eq!(error.message, "image extension \"\" does not match declared format WebpLossless");
}

#[test]
fn payload_type_mismatch_names_both_types() {
    assert!(check_payload_type(LsbPayloadType::Moc, LsbPayloadType::Moc).is_ok());
    let error = check_payload_type(LsbPayloadType::Moc, LsbPayloadType::Charx).unwrap_err();
    assert_eq!(error.message, "LSB payload type mismatch: expected Moc, found Charx");
}

fn embed_request(carrier_path: Option<&str>, preserved: bool, output_path: &str) -> EmbedLsbImageRequest {
    EmbedLsbImageRequest {
        carrier_path: carrier_path.map(|path| path.to_owned()),
        carrier: if preserved {
            Some(LsbCarrierSource::PreservedCharacterSource {
                owner_space_id: "space".to_owned(),
                character_id: "character".to_owned(),
            })
        } else {
            None
        },
        output_path: output_path.to_owned(),
        format: LsbImageFormat::Png,
        payload: LsbExportPayload::Charx { input_path: "card.charx".to_owned() },
        compress: true,
    }
}

#[test]
fn embed_requests_name_exactly_one_carrier() {
    match plan_lsb_carrier(&embed_request(Some("in/carrier.png"), false, "out/card.png")).unwrap() {
        LsbCarrierPlan::File { path } => assert_eq!(path, "in/carrier.png"),
        other => panic!("unexpected plan {other:?}"),
    }
    match plan_lsb_carrier(&embed_request(None, true, "out/card.png")).unwrap() {
        LsbCarrierPlan::PreservedCharacterSource { owner_space_id, character_id } => {
            assert_eq!(owner_space_id, "space");
            assert_eq!(character_id, "character");
        }
        other => panic!("unexpected plan {other:?}"),
    }
    for request in [
        embed_request(None, false, "out/card.png"),
        embed_request(Some("in/carrier.png"), true, "out/card.png"),
    ] {
        let error = plan_lsb_carrier(&request).unwrap_err();
        assert_eq!(error.kind, RuntimeApiErrorKind::InvalidRequest);
        assert_eq!(error.message, "exactly one of carrier_path or carrier must be provided");
    }
    let error = plan_lsb_carrier(&embed_request(Some("in/carrier.png"), false, "out/card.webp")).unwrap_err();
    assert_eq!(error.message, "image extension \"webp\" does not match declared format Png");
    let error = plan_lsb_carrier(&embed_request(Some("in/carrier.jpeg"), false, "out/card.png")).unwrap_err();
    assert_eq!(error.message, "image extension \"jpeg\" does not match declared format Png");
}

#[test]
fn preserved_carriers_must_be_png_imports() {
    assert!(check_preserved_carrier(ExternalCharacterImportFormat::Ccv2Png, LsbImageFormat::Png).is_ok());
    for (source, format) in [
        (ExternalCharacterImportFormat::Ccv3Json, LsbImageFormat::Png),
        (ExternalCharacterImportFormat::Ccv3Charx, LsbImageFormat::Png),
        (ExternalCharacterImportFormat::Ccv1Png, LsbImageFormat::WebpLossless),
    ] {
        let error = check_preserved_carrier(source, format).unwrap_err();
        assert_eq!(error.message, "a preserved LSB carrier must be an imported PNG and use format png");
    }
}

#[test]
fn dmw_budget_splits_hybrid_retrieval() {
    assert_eq!(dmw_retrieval_budget(1000, true, true), 600);
    assert_eq!(dmw_retrieval_budget(1000, true, false), 1000);
    assert_eq!(dmw_retrieval_budget(1000, false, true), 0);
    assert_eq!(effective_dmw_retrieval_budget(1000, true, true, 250), 750);
    assert_eq!(effective_dmw_retrieval_budget(1000, true, true, 2000), 0);
}

#[test]
fn space_budgets_conserve_the_total() {
    let space = |id: &str, weight: u8| MemorySpaceSource {
        space_id: id.to_owned(),
        label: "space".to_owned(),
        weight,
        memory: true,
        semantic_graph: false,
    };
    let sources = [
        space("00000000-0000-4000-8000-000000000001", 1),
        space("00000000-0000-4000-8000-000000000002", 1),
        space("00000000-0000-4000-8000-000000000003", 1),
    ];
    let budgets = weighted_space_budgets(&sources, 100);
    assert_eq!(budgets.iter().sum::<usize>(), 100);
    assert_eq!(budgets, [34, 33, 33]);
}

#[test]
fn numeric_override_modes() {
    let mut applied = Vec::new();
    let mut ignored = Vec::new();
    assert_eq!(
        governed_usize("max_output_tokens", OverrideMode::Allow, Some(100), 512, 1, 1024, &mut applied, &mut ignored),
        Ok(100)
    );
    assert_eq!(applied, ["max_output_tokens"]);
    assert_eq!(
        governed_usize("context_window", OverrideMode::Ignore, Some(100), 512, 1, 1024, &mut applied, &mut ignored),
        Ok(512)
    );
    assert_eq!(ignored, ["context_window"]);
    assert_eq!(
        governed_usize("context_window", OverrideMode::Reject, Some(100), 512, 1, 1024, &mut applied, &mut ignored),
        Err(GovernanceError::Rejected("context_window".to_owned()))
    );
    assert!(matches!(
        governed_usize("max_output_tokens", OverrideMode::Allow, Some(4096), 512, 1, 1024, &mut applied, &mut ignored),
        Err(GovernanceError::OutOfRange { value: 4096, min: 1, max: 1024, .. })
    ));
    assert_eq!(
        governed_text("instructions", OverrideMode::Allow, Some("  "), &mut applied, &mut ignored),
        Ok(None)
    );
}

#[test]
fn prompt_space_replace_then_get_and_reset() {
    let mut spaces = PromptSpaces::in_memory();
    let replaced = spaces
        .replace(PromptSpaceId::Assistant, "Be brief.".to_owned())
        .expect("replace");
    assert_eq!(replaced.source, PromptSpaceSource::Override);
    assert_eq!(spaces.get(PromptSpaceId::Assistant).content, "Be brief.");
    let reset = spaces.reset(PromptSpaceId::Assistant).expect("reset");
    assert_eq!(reset.source, PromptSpaceSource::Builtin);
    assert_eq!(reset.content, PromptSpaceId::Assistant.default_content());
    assert!(PromptSpaceId::parse("no-such-space").is_err());
    // The revision is the SHA-256 of the content, not the content itself.
    assert_eq!(replaced.revision.len(), 64);
    assert_ne!(replaced.revision, "Be brief.");
}

#[test]
fn sse_decoder_splits_events_and_rejects_bad_utf8() {
    let mut decoder = SseDecoder::new();
    assert_eq!(decoder.push("data: one\n\ndata: tw"), vec!["one".to_owned()]);
    assert_eq!(decoder.push("o\r\n\r\n"), vec!["two".to_owned()]);
    let mut bytes = SseDecoder::new();
    assert!(matches!(
        bytes.push_bytes(b"data: \xff\n\n"),
        Err(SseDecodeError::InvalidUtf8 { valid_up_to: 6, error_len: Some(1) })
    ));
    assert_eq!(find_event_boundary(b"a\n\nb"), Some((1, 2)));
    assert!(is_done_event("[DONE]"));
}

#[test]
fn gateway_messages_must_not_be_empty() {
    assert!(matches!(validate_gateway_messages(&[]), Err(GatewayError::InvalidMessage(_))));
    let message = GatewayMessage {
        role: GatewayMessageRole::User,
        content: Some(GatewayMessageContent::Text("hi".to_owned())),
        tool_call_id: None,
        tool_calls: Vec::new(),
    };
    assert!(validate_gateway_messages(&[message]).is_ok());
}

#[test]
fn provider_endpoint_debug_text_hides_the_key() {
    let endpoint = ProviderEndpoint {
        base_url: "http://127.0.0.1/v1".to_owned(),
        api_key: Some("sk-secret".to_owned()),
        model: "m".to_owned(),
    };
    let text = endpoint.debug_text();
    assert_eq!(
        text,
        "ProviderEndpoint { base_url: \"http://127.0.0.1/v1\", api_key: Some(\"[REDACTED]\"), model: \"m\" }"
    );
}

#[test]
fn runtime_errors_carry_kind_and_message() {
    let error = RuntimeApiError::not_found("missing");
    assert_eq!(error.kind, RuntimeApiErrorKind::NotFound);
    assert_eq!(error.to_text(), "missing");
    assert_eq!(core_version(), "0.1.0");
    let cancelled = MomoApiError::cancelled();
    assert_eq!(cancelled.kind, MomoApiErrorKind::Cancelled);
    assert_eq!(cancelled.message, "response request was cancelled");
    assert_eq!(MaintenanceKind::SemanticGraph.storage_name(), "semantic_graph");
}

#[test]
fn copying_evidence_never_invents_identifiers() {
    let source = "keep node-1a2b-3c4d and ignore short-1";
    assert!(validate_generated_opaque_identifiers(source, source).is_ok());
    assert!(validate_generated_opaque_identifiers(source, "patches: [node-1a2b-3c4d]").is_ok());
    assert_eq!(
        validate_generated_opaque_identifiers(source, "patches: [node-1a2b-3c4e]"),
        Err("generated patch altered or invented opaque identifier \"node-1a2b-3c4e\"; copy identifiers from evidence character-for-character".to_owned())
    );
}

#[test]
fn empty_patch_detection_ignores_whitespace() {
    assert!(memory_patch_is_noop("patches: [ ]\n"));
    assert!(!memory_patch_is_noop("patches: [a]"));
}

#[test]
fn batch_key_is_a_sha256_of_framed_parts() {
    let ids = vec!["r1".to_owned()];
    let key = maintenance_batch_key("scope", "memory", &ids);
    assert!(key.starts_with("maintenance:"));
    assert_eq!(key.len(), "maintenance:".len() + 64);
    assert_ne!(key, maintenance_batch_key("scope", "memory", &vec!["r2".to_owned()]));
    assert_eq!(key, maintenance_batch_key("scope", "memory", &ids));
}

#[test]
fn ensure_size_names_label_and_limit() {
    assert!(ensure_size(1, 10, "JSON").is_ok());
    assert_eq!(
        ensure_size(0, 10, "JSON"),
        Err(CharacterCompatError::Invalid("JSON input size must be between 1 and 10 bytes".to_owned()))
    );
}

#[test]
fn export_formats_parse_by_name() {
    assert_eq!(ExternalCharacterExportFormat::parse("ccv3_charx"), Ok(ExternalCharacterExportFormat::Ccv3Charx));
    assert!(matches!(ExternalCharacterExportFormat::parse("ccv4"), Err(CharacterCompatError::Invalid(_))));
}

#[test]
fn markdown_leaves_out_blank_sections() {
    let markdown = render_character_markdown("Mira", " A guide. ", "", "Harbor", "");
    assert_eq!(markdown, "# Mira\n\nA guide.\n\n## Scenario\n\nHarbor\n");
}

#[test]
fn jpeg_prefix_needs_start_and_end_markers() {
    assert!(valid_jpeg_prefix(&[0xFF, 0xD8, 0xFF, 0x00, 0xFF, 0xD9]));
    assert!(!valid_jpeg_prefix(&[0xFF, 0xD8, 0xFF, 0x00]));
}

fn png_with_text(keyword: &str, json: &str) -> Vec<u8> {
    let mut png = b"\x89PNG\r\n\x1a\n".to_vec();
    let mut data = keyword.as_bytes().to_vec();
    data.push(0);
    data.extend_from_slice(base64::engine::general_purpose::STANDARD.encode(json).as_bytes());
    for (kind, body) in [(b"tEXt".as_slice(), data.as_slice()), (b"IEND".as_slice(), &[][..])] {
        png.extend_from_slice(&(body.len() as u32).to_be_bytes());
        png.extend_from_slice(kind);
        png.extend_from_slice(body);
        let mut crc_input = kind.to_vec();
        crc_input.extend_from_slice(body);
        png.extend_from_slice(&crc32fast::hash(&crc_input).to_be_bytes());
    }
    png
}

#[test]
fn png_card_chunk_is_decoded() {
    let png = png_with_text("chara", "{\"name\":\"Mira\"}");
    let (json, chunk) = extract_png_card(&png).expect("card");
    assert_eq!(json, b"{\"name\":\"Mira\"}");
    assert_eq!(chunk, PngCardChunk::Chara);
    let mut broken = png.clone();
    broken[0] = 0;
    assert_eq!(
        extract_png_card(&broken),
        Err(CharacterCompatError::Invalid("PNG signature is invalid".to_owned()))
    );
}

const CCV2: &str = r#"{"spec":"chara_card_v2","spec_version":"2.0","data":{"name":" Mira ","description":"A guide.","personality":"","scenario":"","first_mes":"Hello!","mes_example":"","creator":"","character_version":"v2","tags":["x"]}}"#;

#[test]
fn ccv2_card_is_read_into_momo_terms() {
    let header = parse_external_header(CCV2.as_bytes(), None).expect("header");
    assert_eq!(header.detected, 2);
    assert_eq!(header.spec_version, "2.0");
    let parsed = complete_external_card(header, None, Ccv3SpecVersion::Implemented).expect("card");
    assert_eq!(parsed.format, ExternalCharacterImportFormat::Ccv2Json);
    assert_eq!(parsed.name, "Mira");
    assert_eq!(parsed.author_name, "Unknown");
    assert_eq!(parsed.version, "1.0.0");
    assert_eq!(parsed.character_markdown, "# Mira\n\nA guide.\n");
    assert_eq!(parsed.opening_markdown.as_deref(), Some("Hello!"));
    assert_eq!(
        parsed.warnings,
        vec![
            "external character_version \"v2\" is not SemVer; MOMO version was set to 1.0.0".to_owned(),
            "external-only runtime, catalog, lorebook, extension, or asset fields were preserved as source metadata".to_owned(),
        ]
    );
}

#[test]
fn ccv1_card_in_a_ccv2_png_chunk_counts_as_ccv1_png() {
    let card = r#"{"name":"Mira","description":"","personality":"","scenario":"","first_mes":"","mes_example":""}"#;
    let header = parse_external_header(card.as_bytes(), Some(ExternalCharacterImportFormat::Ccv2Png)).expect("header");
    assert_eq!(header.detected, 1);
    let parsed = complete_external_card(header, Some(ExternalCharacterImportFormat::Ccv2Png), Ccv3SpecVersion::Implemented)
        .expect("card");
    assert_eq!(parsed.format, ExternalCharacterImportFormat::Ccv1Png);
    assert_eq!(parsed.version, "1.0.0");
    assert!(parsed.opening_markdown.is_none());
    assert!(parsed.warnings.is_empty());
}

#[test]
fn card_json_errors_are_reported_in_order() {
    assert!(matches!(parse_external_header(b"{not json", None), Err(CharacterCompatError::Json(_))));
    assert_eq!(
        parse_external_header(b"[]", None).unwrap_err(),
        CharacterCompatError::Invalid("card JSON must be an object".to_owned())
    );
    assert_eq!(
        parse_external_header(br#"{"spec":"other"}"#, None).unwrap_err(),
        CharacterCompatError::Invalid("unsupported character-card spec \"other\"".to_owned())
    );
    assert_eq!(
        parse_external_header(br#"{"spec":"chara_card_v3","spec_version":"3.0"}"#, Some(ExternalCharacterImportFormat::Ccv2Png)).unwrap_err(),
        CharacterCompatError::Invalid("embedded chunk format does not match card spec".to_owned())
    );
    assert_eq!(
        parse_external_header(br#"{"spec":"chara_card_v2","spec_version":"2.1"}"#, None).unwrap_err(),
        CharacterCompatError::Invalid("CCv2 spec_version must be \"2.0\", received \"2.1\"".to_owned())
    );
    let header = parse_external_header(br#"{"spec":"chara_card_v3","spec_version":"4.5","data":{}}"#, None).expect("header");
    assert_eq!(
        complete_external_card(header, None, Ccv3SpecVersion::OutOfRange).unwrap_err(),
        CharacterCompatError::Invalid("CCv3 spec_version \"4.5\" must be at least 3.0 and lower than 4.0".to_owned())
    );
    let header = parse_external_header(br#"{"spec":"chara_card_v3","spec_version":"3.0","data":{"name":""}}"#, None).expect("header");
    assert_eq!(
        complete_external_card(header, None, Ccv3SpecVersion::Implemented).unwrap_err(),
        CharacterCompatError::Invalid("card name must contain 1 to 120 characters".to_owned())
    );
}

fn charx_bytes(entries: &[(&str, &[u8])]) -> Vec<u8> {
    let mut buffer = std::io::Cursor::new(Vec::new());
    {
        let mut writer = zip::ZipWriter::new(&mut buffer);
        for (name, data) in entries {
            writer.start_file(*name, zip::write::SimpleFileOptions::default()).expect("start");
            writer.write_all(data).expect("write");
        }
        writer.finish().expect("finish");
    }
    buffer.into_inner()
}

#[test]
fn charx_package_is_summarized() {
    let card = br#"{"spec":"chara_card_v3","spec_version":"3.0","data":{"assets":[{"uri":"embedded://assets/a.png"},{"uri":"embeded://assets/missing.png"}]}}"#;
    let bytes = charx_bytes(&[("card.json", card), ("assets/a.png", b"png"), ("x_meta/1.json", b"{}")]);
    let package = parse_charx_package(bytes.clone()).expect("package");
    assert_eq!(package.card_json, card.to_vec());
    assert_eq!(package.info.entry_count, 3);
    assert_eq!(package.info.asset_count, 1);
    assert!(package.info.has_x_meta);
    assert!(!package.info.has_module_risum);
    assert!(!package.info.jpeg_zip_hybrid);
    assert_eq!(package.info.archive_sha256.len(), 64);
    assert_eq!(
        package.warnings,
        vec![
            "asset 0 uses the non-standard embedded:// spelling; CHARX specifies embeded://".to_owned(),
            "asset 1 references missing CHARX entry \"assets/missing.png\"; the descriptor was preserved".to_owned(),
        ]
    );
}

#[test]
fn charx_without_card_is_rejected() {
    let bytes = charx_bytes(&[("assets/a.png", b"png")]);
    assert_eq!(
        parse_charx_package(bytes).unwrap_err(),
        CharacterCompatError::Invalid("CHARX must contain exactly one card.json file at the ZIP root".to_owned())
    );
    assert!(matches!(parse_charx_package(b"not a zip".to_vec()), Err(CharacterCompatError::Zip(_))));
    assert_eq!(
        parse_charx_package(Vec::new()).unwrap_err(),
        CharacterCompatError::Invalid("CHARX input size must be between 1 and 268435456 bytes".to_owned())
    );
}

#[test]
fn charx_entries_are_checked_one_by_one() {
    let mut scan = CharxScan::new();
    let entry = |name: &str| ZipEntryInfo {
        name: name.to_owned(),
        enclosed: true,
        encrypted: false,
        symbolic_link: false,
        directory: false,
        regular_file: true,
        size: 3,
    };
    assert_eq!(screen_entry(&mut scan, &entry("card.json")), Ok(Some(10 * 1024 * 1024)));
    assert_eq!(
        screen_entry(&mut scan, &entry("card.json")),
        Err(CharacterCompatError::Invalid("CHARX contains duplicate entry \"card.json\"".to_owned()))
    );
    assert_eq!(
        screen_entry(&mut scan, &entry("a\\b")),
        Err(CharacterCompatError::Invalid("CHARX contains unsafe entry path \"a\\\\b\"".to_owned()))
    );
    assert_eq!(
        record_entry(&mut scan, "big.bin".to_owned(), vec![0; 5], 4),
        Err(CharacterCompatError::Invalid("CHARX entry \"big.bin\" exceeds 4 expanded bytes".to_owned()))
    );
    assert!(record_entry(&mut scan, "module.risum".to_owned(), vec![1], 10).is_ok());
    assert!(scan.has_module_risum);
    assert_eq!(scan.expanded_bytes, 1);
}

#[test]
fn config_documents_round_trip_text() {
    let document = ConfigDocument::parse("stream = true\n").expect("parse");
    assert_eq!(document.get("stream"), Some(&toml::Value::Boolean(true)));
    assert_eq!(document.to_toml_string().expect("format"), "stream = true\n");
    assert!(matches!(ConfigDocument::parse("= nope"), Err(ConfigError::Parse(_))));
}

#[test]
fn parses_and_formats_in_memory_configuration() {
    let document = ConfigDocument::parse("stream = true\n").expect("parse");
    assert_eq!(document.get("stream"), Some(&toml::Value::Boolean(true)));
    assert_eq!(document.to_toml_string().expect("format"), "stream = true\n");
}

#[test]
fn rejects_non_toml_paths() {
    let result = ensure_toml_path("config.json");
    assert!(matches!(result, Err(ConfigError::InvalidExtension(_))));
    assert!(ensure_toml_path("dir/user.toml").is_ok());
}

#[test]
fn inserted_config_keys_can_be_read_back() {
    let mut document = ConfigDocument::parse("").expect("parse");
    assert!(document.insert("theme".to_owned(), toml::Value::String("dark".to_owned())).is_none());
    assert_eq!(document.get("theme"), Some(&toml::Value::String("dark".to_owned())));
}

#[test]
fn account_crypto_is_local_only() {
    assert!(!crypto_is_unlocked());
    assert_eq!(crypto_payload_is_encrypted("{}".to_owned()), Ok(false));
    assert_eq!(
        crypto_recovery_verifier("key".to_owned()),
        Err("账号级同步加密已禁用：当前 MOMO Core 只保留 .moc 私有容器加密".to_owned())
    );
}

#[test]
fn export_plan_lists_modules_and_refuses_duplicates() {
    let mut plan = MocExportPlan {
        include_config: true,
        characters: Vec::new(),
        conversations: vec![1, 2],
        memory: Vec::new(),
        semantic_graph: Vec::new(),
        compatibility: MocCompatibility::Disabled,
    };
    assert_eq!(plan.validate(false), Ok(vec![MocModule::MomoConfig, MocModule::Conversations]));
    plan.conversations = vec![1, 1];
    assert_eq!(
        plan.validate(false),
        Err(PortableError::InvalidData("conversations contains duplicate Space selections".to_owned()))
    );
    let empty = MocExportPlan {
        include_config: false,
        characters: Vec::new(),
        conversations: Vec::new(),
        memory: Vec::new(),
        semantic_graph: Vec::new(),
        compatibility: MocCompatibility::GeneratedCcv3Json,
    };
    assert_eq!(empty.validate(false), Err(PortableError::EmptySelection));
    assert_eq!(
        empty.validate(true),
        Err(PortableError::InvalidData("character compatibility requires the characters module".to_owned()))
    );
}

#[test]
fn host_modules_cannot_replace_core_modules() {
    let mut ids = Vec::new();
    let module = |id: &str, deps: &[&str]| HostMocModule {
        id: id.to_owned(),
        input_path: "modules/x".to_owned(),
        dependencies: deps.iter().map(|d| d.to_string()).collect(),
        import_order: default_host_module_import_order(),
    };
    assert!(validate_host_module(&module("studio", &["memory"]), &mut ids).is_ok());
    assert_eq!(ids, ["studio"]);
    assert_eq!(
        validate_host_module(&module("studio", &[]), &mut ids),
        Err(PortableError::InvalidData("duplicate MOC module id: studio".to_owned()))
    );
    assert_eq!(
        validate_host_module(&module("memory", &[]), &mut ids),
        Err(PortableError::InvalidData("host module cannot replace Core module memory".to_owned()))
    );
    assert_eq!(
        validate_host_module(&module("tools", &["a", "a"]), &mut ids),
        Err(PortableError::InvalidData("invalid dependency for host module tools".to_owned()))
    );
    assert_eq!(
        validate_host_module(&module("bad id", &[]), &mut ids),
        Err(PortableError::InvalidData("invalid host MOC module id: bad id".to_owned()))
    );
    assert_eq!(default_host_module_import_order(), 1000);
}

#[test]
fn asset_paths_must_be_relative_markdown() {
    assert_eq!(validate_asset_path("cards/mira.MD"), Ok("cards/mira.MD".to_owned()));
    for path in ["/abs.md", "../up.md", "notes.txt", "  "] {
        assert_eq!(
            validate_asset_path(path),
            Err(PortableError::InvalidData(format!("unsafe Markdown asset path: {path}")))
        );
    }
}

#[test]
fn character_ids_accept_an_urn_prefix() {
    assert_eq!(
        parse_character_id("urn:uuid:00000000-0000-4000-8000-000000000001"),
        Ok(0x0000_0000_0000_4000_8000_0000_0000_0001)
    );
    assert!(matches!(parse_character_id("nope"), Err(PortableError::Uuid(_))));
}

#[test]
fn protection_exposes_only_a_passphrase() {
    assert_eq!(MocProtection::default().passphrase(), None);
    assert_eq!(MocProtection::Passphrase { value: "pw".to_owned() }.passphrase(), Some("pw"));
}

#[test]
fn frontmatter_needs_matching_markers() {
    assert!(contains_frontmatter("---\ntitle: x\n---\nbody"));
    assert!(contains_frontmatter(" +++ \n+++"));
    assert!(!contains_frontmatter("---\nno end"));
    assert!(!contains_frontmatter("text\n---\n---"));
}

#[test]
fn runtime_characters_are_checked_in_order() {
    let mut card = CharacterFields {
        name: "Mira".to_owned(),
        version: "1.0.0".to_owned(),
        author_name: "Eren".to_owned(),
        author_url: Some("https://example.com".to_owned()),
        character_markdown: "# Mira".to_owned(),
        user_markdown: String::new(),
        opening_markdown: None,
    };
    assert!(validate_runtime_character(&card).is_ok());
    card.version = "one".to_owned();
    assert!(validate_runtime_character(&card).unwrap_err().message.starts_with("character version is not SemVer: "));
    card.version = "1.0.0".to_owned();
    card.user_markdown = "---\na: 1\n---\n".to_owned();
    assert_eq!(validate_runtime_character(&card).unwrap_err().message, "user_markdown must not contain frontmatter");
    card.user_markdown = String::new();
    card.author_url = Some("not a url".to_owned());
    assert!(validate_runtime_character(&card).unwrap_err().message.starts_with("character author URL is invalid: "));
}

#[test]
fn extension_is_read_from_the_file_name() {
    assert_eq!(extension_of("a/b.tar.gz"), Some(vec!['g', 'z']));
    assert_eq!(extension_of(".hidden"), None);
}

fn member_text(members: &[JsonMember], key: &str) -> Option<String> {
    members.iter().find(|m| m.key == key).and_then(|m| match &m.value {
        JsonValue::String(s) => Some(s.clone()),
        _ => None,
    })
}

fn member_object(members: &[JsonMember], key: &str) -> Vec<JsonMember> {
    match members.iter().find(|m| m.key == key).map(|m| &m.value) {
        Some(JsonValue::Object(inner)) => inner.iter().map(|m| JsonMember {
            key: m.key.clone(),
            value: copy_value(&m.value),
        }).collect(),
        _ => panic!("{key} is not an object"),
    }
}

fn copy_value(value: &JsonValue) -> JsonValue {
    match value {
        JsonValue::Null => JsonValue::Null,
        JsonValue::Bool(b) => JsonValue::Bool(*b),
        JsonValue::Number(n) => JsonValue::Number(n.clone()),
        JsonValue::String(s) => JsonValue::String(s.clone()),
        JsonValue::Array(items) => JsonValue::Array(items.iter().map(copy_value).collect()),
        JsonValue::Object(members) => JsonValue::Object(
            members.iter().map(|m| JsonMember { key: m.key.clone(), value: copy_value(&m.value) }).collect(),
        ),
    }
}

fn export_fields() -> momo_core::card_export::CardExportFields {
    momo_core::card_export::CardExportFields {
        name: "Mira".to_owned(),
        author_name: "Eren".to_owned(),
        version: "1.2.0".to_owned(),
        opening_markdown: Some("Hi".to_owned()),
        character_markdown: "# Mira".to_owned(),
    }
}

#[test]
fn export_without_source_writes_a_fresh_ccv3_card() {
    let card = momo_core::card_export::export_ccv3(&export_fields(), None);
    let JsonValue::Object(root) = card else { panic!("card is an object") };
    assert_eq!(member_text(&root, "spec").as_deref(), Some("chara_card_v3"));
    assert_eq!(member_text(&root, "spec_version").as_deref(), Some("3.0"));
    let data = member_object(&root, "data");
    assert_eq!(member_text(&data, "name").as_deref(), Some("Mira"));
    assert_eq!(member_text(&data, "creator").as_deref(), Some("Eren"));
    assert_eq!(member_text(&data, "character_version").as_deref(), Some("1.2.0"));
    assert_eq!(member_text(&data, "first_mes").as_deref(), Some("Hi"));
    assert_eq!(member_text(&data, "description").as_deref(), Some("# Mira"));
    assert_eq!(member_text(&data, "personality").as_deref(), Some(""));
    assert!(data.iter().any(|m| m.key == "group_only_greetings"));
}

#[test]
fn export_over_a_same_spec_source_keeps_its_fields() {
    let header = parse_external_header(CCV2.as_bytes(), None).expect("header");
    let card = momo_core::card_export::export_ccv2(&export_fields(), Some(header.card));
    let JsonValue::Object(root) = card else { panic!("card is an object") };
    let data = member_object(&root, "data");
    assert_eq!(member_text(&data, "name").as_deref(), Some("Mira"));
    assert_eq!(member_text(&data, "description").as_deref(), Some("A guide."));
    assert!(matches!(
        data.iter().find(|m| m.key == "tags").map(|m| &m.value),
        Some(JsonValue::Array(items)) if items.len() == 1
    ));
    assert!(!data.iter().any(|m| m.key == "group_only_greetings"));
    assert_eq!(data.iter().filter(|m| m.key == "name").count(), 1);
}

#[test]
fn control_keys_hash_actor_and_request() {
    let request = |id: &str| MomoControlRequest {
        schema: "momo.control/1.0".to_owned(),
        request_id: id.to_owned(),
        actor_space_id: 7,
        action: MomoControlAction::DeleteConversation { conversation_space_id: 1, conversation_id: 2 },
    };
    let key = control_operation_key(&request("a"));
    assert!(key.starts_with("control_"));
    assert_eq!(key.len(), "control_".len() + 64);
    assert_eq!(key, control_operation_key(&request("a")));
    assert_ne!(key, control_operation_key(&request("b")));
}

#[test]
fn input_kind_follows_the_extension() {
    assert_eq!(ExternalInputKind::from_extension("charx"), Ok(ExternalInputKind::Charx));
    assert_eq!(
        ExternalInputKind::from_extension("txt"),
        Err(CharacterCompatError::Invalid(
            "unsupported input extension \"txt\"; expected json, png, or charx".to_owned()
        ))
    );
    assert_eq!(ExternalInputKind::Png.size_limit(), 64 * 1024 * 1024);
    assert_eq!(
        check_detected_format(ExternalCharacterImportFormat::Ccv3Json, ExternalCharacterImportFormat::Ccv2Json),
        Err(CharacterCompatError::Invalid(
            "declared import format ccv3_json does not match detected format ccv2_json".to_owned()
        ))
    );
}

#[test]
fn maintenance_completions_must_stop() {
    let stopped = parse_external_header(br#"{"name":"x","finish_reason":"stop"}"#, None).expect("json").card;
    assert_eq!(maintenance_finish_error(&stopped), None);
    let cut = parse_external_header(br#"{"name":"x","finish_reason":"length"}"#, None).expect("json").card;
    assert_eq!(
        maintenance_finish_error(&cut).as_deref(),
        Some("maintenance model did not finish normally (finish_reason=length)")
    );
    let missing = parse_external_header(br#"{"name":"x"}"#, None).expect("json").card;
    assert_eq!(
        maintenance_finish_error(&missing).as_deref(),
        Some("maintenance model did not finish normally (finish_reason=missing)")
    );
}

#[test]
fn round_trips_unknown_configuration_fields() {
    let original = ConfigDocument::parse("\nstream = true\n[future_feature]\nenabled = false\n")
        .expect("fixture TOML");
    let text = original.to_toml_string().expect("save configuration");
    let loaded = ConfigDocument::parse(&text).expect("load configuration");
    assert_eq!(loaded.values(), original.values());
}

#[test]
fn compression_shrinks_repetitive_payloads() {
    let mut pixels = vec![0; 4096 * 3];
    let payload = vec![b'a'; 1000];
    let info = embed_lsb_carrier(&mut pixels, 3, LsbPayloadType::Moc, &payload, true).expect("embed");
    assert!(info.compressed);
    assert!(info.stored_bytes < info.original_bytes);
    assert_eq!(info.original_bytes, 1000);
    assert_eq!(extract_lsb_carrier(&pixels, 3).expect("extract").bytes, payload);
}

#[test]
fn case_fold_uses_forward_slashes_and_lowercase() {
    assert_eq!(momo_core::portable::portable_case_fold("Cards\\Mira.MD"), "cards/mira.md");
    assert_eq!(momo_core::portable::portable_case_fold("ÄBC"), "äbc");
}

#[test]
fn repeated_character_ids_name_their_space() {
    let plan = MocExportPlan {
        include_config: false,
        characters: vec![momo_core::portable::MocCharacterSelection {
            space_id: 0x0190_0000_0000_7000_8000_0000_0000_00ff,
            character_ids: vec![5, 5],
        }],
        conversations: Vec::new(),
        memory: Vec::new(),
        semantic_graph: Vec::new(),
        compatibility: MocCompatibility::Disabled,
    };
    assert_eq!(
        plan.validate(false),
        Err(PortableError::InvalidData(
            "character selection for Space 01900000-0000-7000-8000-0000000000ff contains duplicate IDs".to_owned()
        ))
    );
    let id: u128 = 0x0123_4567_89ab_cdef_fedc_ba98_7654_3210;
    let plan = MocExportPlan {
        characters: vec![momo_core::portable::MocCharacterSelection { space_id: id, character_ids: vec![1, 1] }],
        ..plan
    };
    assert_eq!(
        plan.validate(false),
        Err(PortableError::InvalidData(format!(
            "character selection for Space {} contains duplicate IDs",
            uuid::Uuid::from_u128(id)
        )))
    );
}

#[test]
fn preserved_sources_are_checked_against_their_record() {
    let bytes = b"source".to_vec();
    let record = StoredSourceFile { sha256: hex::encode(sha2::Sha256::digest(&bytes)), size: 6 };
    assert!(check_preserved_file(PreservedSourceSite::Local, &record, true, false, 6).is_ok());
    assert_eq!(
        check_preserved_file(PreservedSourceSite::MocImport, &record, true, true, 6),
        Err(CharacterCompatError::Invalid("MOC preserved source type or size does not match metadata".to_owned()))
    );
    assert_eq!(check_preserved_bytes(PreservedSourceSite::Local, &record, bytes.clone(), None), Ok(bytes.clone()));
    assert_eq!(
        check_preserved_bytes(PreservedSourceSite::Local, &record, b"other".to_vec(), None),
        Err(CharacterCompatError::Invalid("preserved source hash does not match its metadata".to_owned()))
    );
}

#[test]
fn exported_cards_read_back_as_the_character() {
    let card = momo_core::card_export::export_ccv3(&export_fields(), None);
    let header = momo_core::character_compat::ExternalCardHeader {
        card,
        detected: 3,
        spec_version: "3.0".to_owned(),
    };
    let parsed = complete_external_card(header, None, Ccv3SpecVersion::Implemented).expect("card");
    assert_eq!(parsed.name, "Mira");
    assert_eq!(parsed.author_name, "Eren");
    assert_eq!(parsed.version, "1.2.0");
    assert_eq!(parsed.opening_markdown.as_deref(), Some("Hi"));
    assert_eq!(parsed.character_markdown, "# Mira\n\n# Mira\n");
    assert_eq!(parsed.format, ExternalCharacterImportFormat::Ccv3Json);
}

fn member(key: &str, value: JsonValue) -> JsonMember {
    JsonMember { key: key.to_owned(), value }
}

fn card_with_asset_uri(uri: &str) -> JsonValue {
    JsonValue::Object(vec![member(
        "data",
        JsonValue::Object(vec![member(
            "assets",
            JsonValue::Array(vec![JsonValue::Object(vec![
                member("type", JsonValue::String("icon".to_owned())),
                member("uri", JsonValue::String(uri.to_owned())),
            ])]),
        )]),
    )])
}

#[test]
fn charx_export_needs_the_archive_its_card_points_into() {
    let error = charx_export_entries(&card_with_asset_uri("embeded://assets/icon.png"), None).unwrap_err();
    assert_eq!(
        error,
        CharacterCompatError::Invalid(
            "cannot export CHARX because the card references embedded assets but no preserved source archive is available"
                .to_owned()
        )
    );
    assert!(charx_export_entries(&card_with_asset_uri("ccdefault:"), None).unwrap().is_empty());
}

#[test]
fn charx_export_copies_all_but_the_card() {
    let source = vec![
        CharxSourceEntry { name: "card.json".to_owned(), directory: false, unix_mode: Some(0o600) },
        CharxSourceEntry { name: "assets/".to_owned(), directory: true, unix_mode: None },
        CharxSourceEntry { name: "assets/icon.png".to_owned(), directory: false, unix_mode: None },
        CharxSourceEntry { name: "x_meta/1.json".to_owned(), directory: false, unix_mode: Some(0o640) },
    ];
    let copies = charx_export_entries(&card_with_asset_uri("embeded://assets/icon.png"), Some(&source)).unwrap();
    assert_eq!(
        copies,
        vec![
            CharxCopyEntry { index: 1, name: "assets/".to_owned(), directory: true, unix_mode: 0o755 },
            CharxCopyEntry { index: 2, name: "assets/icon.png".to_owned(), directory: false, unix_mode: 0o644 },
            CharxCopyEntry { index: 3, name: "x_meta/1.json".to_owned(), directory: false, unix_mode: 0o640 },
        ]
    );
}

#[test]
fn completion_takes_the_first_choice_and_header_request_id() {
    let call = ChatToolCall {
        id: "call_1".to_owned(),
        call_type: "function".to_owned(),
        function: ChatFunctionCall { name: "lookup".to_owned(), arguments: "{}".to_owned() },
    };
    let choices = vec![
        CompletionChoice { content: None, tool_calls: vec![call.clone()], finish_reason: Some("tool_calls".to_owned()) },
        CompletionChoice { content: Some("second".to_owned()), tool_calls: Vec::new(), finish_reason: None },
    ];
    let usage = ChatUsage { input_tokens: 3, output_tokens: 4, total_tokens: 7 };
    let completion = finish_completion(Some("hdr".to_owned()), Some("body".to_owned()), choices, Some(usage.clone())).unwrap();
    assert_eq!(completion.content, "");
    assert_eq!(completion.tool_calls, vec![call]);
    assert_eq!(completion.finish_reason.as_deref(), Some("tool_calls"));
    assert_eq!(completion.usage, Some(usage));
    assert_eq!(completion.upstream_request_id.as_deref(), Some("hdr"));

    let choices = vec![CompletionChoice { content: Some("hi".to_owned()), tool_calls: Vec::new(), finish_reason: None }];
    let completion = finish_completion(None, Some("body".to_owned()), choices, None).unwrap();
    assert_eq!(completion.content, "hi");
    assert_eq!(completion.upstream_request_id.as_deref(), Some("body"));

    assert_eq!(finish_completion(None, None, Vec::new(), None).unwrap_err(), GatewayError::MissingChoice);
}

#[test]
fn reply_bodies_stay_within_their_limit() {
    assert_eq!(check_content_length(Some(9), 8), Err(GatewayError::ResponseTooLarge));
    assert_eq!(check_content_length(Some(8), 8), Ok(()));
    assert_eq!(check_content_length(None, 8), Ok(()));
    let mut body = b"abc".to_vec();
    assert_eq!(append_bounded(&mut body, b"defgh", 8), Ok(()));
    assert_eq!(body, b"abcdefgh".to_vec());
    assert_eq!(append_bounded(&mut body, b"i", 8), Err(GatewayError::ResponseTooLarge));
    assert_eq!(body, b"abcdefgh".to_vec());
}

#[test]
fn text_input_keeps_user_words_for_history() {
    let plain = resolve_text_input("hello".to_owned(), "hello".to_owned(), false);
    assert_eq!(plain.text, "hello");
    assert_eq!(plain.persisted_user_text.as_deref(), Some("hello"));
    assert_eq!(plain.image_handling, ImageInputHandling::NoImages);
    let tools = resolve_text_input("{\"output\":1}\nthanks".to_owned(), "thanks".to_owned(), true);
    assert_eq!(tools.persisted_user_text.as_deref(), Some("thanks"));
    let tools_only = resolve_text_input("{\"output\":1}".to_owned(), String::new(), true);
    assert_eq!(tools_only.persisted_user_text, None);
    assert_eq!(tools_only.maintenance_user_text(), "");
}

#[test]
fn multimodal_input_notes_its_images() {
    let resolved = resolve_multimodal_input("look".to_owned(), 2);
    assert_eq!(resolved.text, "look\n[Image input: 2]");
    assert_eq!(resolved.persisted_user_text.as_deref(), Some("look\n[Image input: 2]"));
    assert_eq!(resolved.visual_input_count, 2);
    assert_eq!(resolved.image_handling, ImageInputHandling::DirectMultimodal);
    assert_eq!(resolve_multimodal_input(String::new(), 13).text, "[Image input: 13]");
}

#[test]
fn described_images_need_a_vision_prompt() {
    assert_eq!(require_vision_prompt(Some("describe".to_owned())).unwrap(), "describe");
    let error = require_vision_prompt(None).unwrap_err();
    assert_eq!(error.kind, MomoApiErrorKind::BadRequest);
    assert_eq!(error.message, "image input requires vision.enabled = true in the portable MOMO configuration");
    let usage = ChatUsage { input_tokens: 5, output_tokens: 6, total_tokens: 11 };
    let resolved = resolve_described_input("a cat".to_owned(), 1, usage.clone(), vec!["req-1".to_owned()]);
    assert_eq!(resolved.persisted_user_text.as_deref(), Some("a cat"));
    assert_eq!(resolved.image_handling, ImageInputHandling::DescriptionFallback);
    assert_eq!(resolved.vision_usage, usage);
    assert_eq!(resolved.vision_upstream_request_ids, vec!["req-1".to_owned()]);
}

#[test]
fn chat_parameters_leave_messages_and_stream_to_momo() {
    assert_eq!(check_request_parameters(&vec!["top_p".to_owned(), "seed".to_owned()]), Ok(()));
    assert_eq!(
        check_request_parameters(&vec!["top_p".to_owned(), "stream".to_owned()]),
        Err("messages and stream are managed by MOMO".to_owned())
    );
    assert!(check_request_parameters(&vec!["messages".to_owned()]).is_err());
    assert_eq!(check_request_parameters(&vec!["model".to_owned()]), Ok(()));
}

#[test]
fn operation_table_tracks_tasks_and_cancellation() {
    let mut table = momo_core::coordination::OperationTable::new();
    assert!(!table.cancel_operation("r1"));
    assert!(!table.has_active_responses("scope-a"));
    table.enter_operation("r1", "scope-a");
    table.enter_operation("r1", "scope-a");
    assert!(table.has_active_responses("scope-a"));
    assert!(!table.has_active_responses("scope-b"));
    assert!(table.ensure_active("r1").is_ok());
    assert!(table.cancel_operation("r1"));
    let error = table.ensure_active("r1").unwrap_err();
    assert_eq!(error.kind, MomoApiErrorKind::Cancelled);
    assert_eq!(error.message, "response request was cancelled");
    assert!(table.ensure_active("r2").is_ok());
    table.leave_operation("r1");
    assert!(table.ensure_active("r1").is_err());
    table.leave_operation("r1");
    assert!(table.ensure_active("r1").is_ok());
    assert!(!table.has_active_responses("scope-a"));
    assert!(!table.cancel_operation("r1"));
}

#[test]
fn discovery_requests_are_http_bounded_and_skip_empty_tokens() {
    assert_eq!(check_discovery_scheme("https"), Ok(()));
    assert_eq!(check_discovery_scheme("http"), Ok(()));
    assert_eq!(check_discovery_scheme("ftp"), Err(CapabilityError::InvalidDiscoveryUrl));
    assert_eq!(check_discovery_size(MAX_DISCOVERY_BYTES as u64), Ok(()));
    assert_eq!(check_discovery_size(MAX_DISCOVERY_BYTES as u64 + 1), Err(CapabilityError::DiscoveryTooLarge));
    assert_eq!(discovery_bearer(Some("")), None);
    assert_eq!(discovery_bearer(Some("token")), Some("token"));
    assert_eq!(discovery_bearer(None), None);
}

#[test]
fn embedding_reply_bodies_are_bounded() {
    let mut body = vec![1u8; momo_core::embedding::MAX_ERROR_BODY_BYTES - 2];
    let full = momo_core::embedding::append_error_chunk(&mut body, &[7, 8, 9]);
    assert!(full);
    assert_eq!(body.len(), momo_core::embedding::MAX_ERROR_BODY_BYTES);
    assert_eq!(&body[body.len() - 2..], &[7, 8]);
    let mut short = Vec::new();
    assert!(!momo_core::embedding::append_error_chunk(&mut short, b"oops"));
    assert_eq!(short, b"oops".to_vec());
    assert!(momo_core::embedding::check_response_length(Some(10)).is_ok());
    assert_eq!(
        momo_core::embedding::check_response_length(Some(64 * 1024 * 1024 + 1)),
        Err(momo_core::embedding::EmbeddingError::ResponseTooLarge)
    );
    let mut reply = b"ab".to_vec();
    assert!(momo_core::embedding::append_response_chunk(&mut reply, b"cd").is_ok());
    assert_eq!(reply, b"abcd".to_vec());
}

#[test]
fn exact_counts_refuse_texts_too_long_for_the_encoders() {
    let long = " ".repeat(momo_core::bpe::MAX_EXACT_COUNT_CHARS) + "x";
    let tokenizer = momo_core::capability::TokenizerProfile::Cl100kBase;
    assert_eq!(tokenizer.count(&long), Err(CapabilityError::TextTooLongForExactCount));
    assert!(tokenizer.count_or_conservative(&long) > 0);
    assert_eq!(momo_core::capability::TokenizerProfile::Conservative.count("hello").map(|n| n > 0), Ok(true));
    let longest = " ".repeat(momo_core::bpe::MAX_EXACT_COUNT_CHARS - 2) + "x";
    assert!(tokenizer.count(&longest).is_ok());
}

#[test]
fn external_json_is_finished_with_the_callers_version_reading() {
    let bytes = br#"{"name":"Mira","description":"A cartographer.","personality":"","scenario":"","first_mes":"Hello","mes_example":""}"#;
    let parsed = parse_external_json(bytes, Some(ExternalCharacterImportFormat::Ccv2Png), |_: &str| {
        panic!("a CCv1 card needs no version reading")
    })
    .expect("card");
    assert_eq!(parsed.format, ExternalCharacterImportFormat::Ccv1Png);
    assert_eq!(parsed.name, "Mira");
    assert_eq!(parsed.author_name, "Unknown");
    assert_eq!(parsed.version, "1.0.0");
    assert_eq!(parsed.character_markdown, "# Mira\n\nA cartographer.\n");
    assert_eq!(parsed.opening_markdown, Some("Hello".to_owned()));
    assert!(parsed.warnings.is_empty());

    let v3 = br#"{"spec":"chara_card_v3","spec_version":"3.5","data":{"name":"Mira","description":"","personality":"","scenario":"","first_mes":"","mes_example":"","creator":"Eren","character_version":"1.0.0"}}"#;
    let parsed = parse_external_json(v3, None, |text: &str| {
        assert_eq!(text, "3.5");
        Ccv3SpecVersion::Newer
    })
    .expect("newer card");
    assert_eq!(parsed.format, ExternalCharacterImportFormat::Ccv3Json);
    assert!(parsed.warnings.iter().any(|w| w.contains("is newer than the implemented 3.0 profile")));
    let error = parse_external_json(v3, None, |_: &str| Ccv3SpecVersion::OutOfRange).unwrap_err();
    assert_eq!(
        error,
        CharacterCompatError::Invalid("CCv3 spec_version \"3.5\" must be at least 3.0 and lower than 4.0".to_owned())
    );
}

#[test]
fn sse_events_do_not_depend_on_chunking() {
    let stream = b"data: one\n\ndata: two\n\ndata: thr";
    let mut whole = SseDecoder::new();
    let together = whole.push_bytes(stream).expect("whole");
    for cut in 0..stream.len() {
        let mut split = SseDecoder::new();
        let mut events = split.push_bytes(&stream[..cut]).expect("first part");
        events.extend(split.push_bytes(&stream[cut..]).expect("second part"));
        assert_eq!(events, together);
    }
    assert_eq!(together, vec!["one".to_owned(), "two".to_owned()]);
}

#[test]
fn maintenance_runs_once_enough_turns_are_queued() {
    let ids = vec!["r1".to_owned(), "r2".to_owned()];
    let error = maintenance_plan("scope", MaintenanceKind::Memory, 0, None, &ids).unwrap_err();
    assert_eq!(error.message, "maintenance threshold must be positive");
    assert!(matches!(maintenance_plan("scope", MaintenanceKind::Memory, 3, None, &ids), Ok(MaintenancePlan::Skip)));
    match maintenance_plan("scope", MaintenanceKind::Memory, 2, None, &ids).unwrap() {
        MaintenancePlan::Run { batch_key } => {
            assert_eq!(batch_key, maintenance_batch_key("scope", "memory", &ids))
        }
        other => panic!("unexpected plan {other:?}"),
    }
    let prepared = PendingMaintenance { batch_key: "k".to_owned(), prepared_commit: true };
    assert!(matches!(
        maintenance_plan("scope", MaintenanceKind::Memory, 2, Some(prepared), &ids),
        Ok(MaintenancePlan::FinishPreparedCommit)
    ));
    let pending = PendingMaintenance { batch_key: "k".to_owned(), prepared_commit: false };
    match maintenance_plan("scope", MaintenanceKind::SemanticGraph, 5, Some(pending), &Vec::new()).unwrap() {
        MaintenancePlan::Run { batch_key } => assert_eq!(batch_key, "k"),
        other => panic!("unexpected plan {other:?}"),
    }
}

#[test]
fn maintenance_gets_one_repair_round() {
    let mut repair = None;
    let step = maintenance_attempt_step(
        MaintenanceKind::Memory,
        &mut repair,
        MaintenanceAttempt::Checked { patch: "patches: []".to_owned(), verdict: Ok(()) },
    );
    assert!(matches!(step, MaintenanceStep::Retry));
    assert!(repair.as_deref().unwrap().starts_with("The first pass returned an empty patch"));
    let step = maintenance_attempt_step(
        MaintenanceKind::Memory,
        &mut repair,
        MaintenanceAttempt::Checked { patch: "patches: []".to_owned(), verdict: Ok(()) },
    );
    assert!(matches!(step, MaintenanceStep::Accept(ref p) if p == "patches: []"));

    let mut repair = None;
    let step = maintenance_attempt_step(MaintenanceKind::SemanticGraph, &mut repair, MaintenanceAttempt::Unfinished("cut".to_owned()));
    assert!(matches!(step, MaintenanceStep::Retry));
    assert!(repair.as_deref().unwrap().starts_with("cut. Regenerate a smaller complete patch."));
    let step = maintenance_attempt_step(
        MaintenanceKind::SemanticGraph,
        &mut repair,
        MaintenanceAttempt::Checked { patch: "x".to_owned(), verdict: Err("bad node".to_owned()) },
    );
    match step {
        MaintenanceStep::Fail(error) => {
            assert_eq!(error.kind, MomoApiErrorKind::Model);
            assert_eq!(error.message, "semantic_graph maintenance model returned an invalid patch after repair: bad node");
        }
        other => panic!("unexpected step {other:?}"),
    }
    let mut none = None;
    assert!(matches!(
        maintenance_attempt_step(MaintenanceKind::Memory, &mut none, MaintenanceAttempt::NoText),
        MaintenanceStep::Fail(_)
    ));
}

#[test]
fn response_conversations_keep_their_character() {
    assert_eq!(response_conversation_id(None, Some("p".to_owned()), Some("m".to_owned())), Some("p".to_owned()));
    assert_eq!(response_conversation_id(Some("r".to_owned()), Some("p".to_owned()), None), Some("r".to_owned()));
    assert_eq!(response_conversation_id(None, None, Some("m".to_owned())), Some("m".to_owned()));
    assert_eq!(response_character_id(true, Some("c1".to_owned()), None).unwrap(), "c1");
    assert_eq!(
        response_character_id(true, Some("c1".to_owned()), Some("c2".to_owned())).unwrap_err().message,
        "character_id differs from the conversation; use switch_character control"
    );
    assert_eq!(
        response_character_id(true, None, Some("c1".to_owned())).unwrap_err().message,
        "conversation has no character; use switch_character control first"
    );
    assert_eq!(
        response_character_id(false, None, None).unwrap_err().message,
        "character_id is required for a new conversation"
    );
    assert_eq!(response_character_id(false, None, Some("c3".to_owned())).unwrap(), "c3");
}

#[test]
fn the_user_turn_is_written_once() {
    let plain = resolve_text_input("hello".to_owned(), "hello".to_owned(), false);
    assert_eq!(user_message_write(true, &plain, false), UserMessageWrite::AlreadyWritten);
    assert_eq!(user_message_write(false, &plain, false), UserMessageWrite::Append("hello".to_owned()));
    let tools_only = resolve_text_input("{}".to_owned(), String::new(), true);
    assert_eq!(user_message_write(false, &tools_only, true), UserMessageWrite::MarkWritten);
}

#[test]
fn scoped_retrieval_requests_pair_their_vectors() {
    let memory_only = vec![MemorySpaceSource {
        space_id: "00000000-0000-4000-8000-000000000001".to_owned(),
        label: "personal".to_owned(),
        weight: 1,
        memory: true,
        semantic_graph: false,
    }];
    assert!(check_scoped_memory_request(&memory_only, 0, false, false, false).is_ok());
    assert_eq!(
        check_scoped_memory_request(&[], 0, false, false, false).unwrap_err().message,
        "memory retrieval requires at least one Space"
    );
    assert!(check_scoped_memory_request(&[], 2, false, false, false).is_ok());
    assert_eq!(
        check_scoped_memory_request(&memory_only, 0, true, false, false).unwrap_err().message,
        "vector_space_id and query_vector must be provided together"
    );
    assert_eq!(
        check_scoped_memory_request(&memory_only, 0, true, true, true).unwrap_err().message,
        "embedding configuration cannot be combined with a caller-supplied raw vector"
    );
    assert_eq!(
        check_scoped_memory_request(&memory_only, 0, false, false, true).unwrap_err().message,
        "vector retrieval requires semantic graph retrieval"
    );
    let mut graph = memory_only.clone();
    graph[0].semantic_graph = true;
    assert!(check_scoped_memory_request(&graph, 0, true, true, false).is_ok());
}

#[test]
fn request_ids_replay_their_own_response_only() {
    assert_eq!(check_persisted_operation(&None, "f").unwrap(), OperationReplay::Run);
    let finished = Some(PersistedOperation {
        request_fingerprint: Some("f".to_owned()),
        response_json: Some("{}".to_owned()),
    });
    assert_eq!(check_persisted_operation(&finished, "f").unwrap(), OperationReplay::Replay("{}".to_owned()));
    let error = check_persisted_operation(&finished, "g").unwrap_err();
    assert_eq!(error.kind, MomoApiErrorKind::Conflict);
    assert_eq!(error.message, "request_id was already used with a different response request");
    let running = Some(PersistedOperation { request_fingerprint: Some("f".to_owned()), response_json: None });
    assert_eq!(check_persisted_operation(&running, "f").unwrap(), OperationReplay::Run);
}

#[test]
fn finished_responses_queue_maintenance_for_the_write_space() {
    let usage = add_vision_usage(
        ChatUsage { input_tokens: u64::MAX, output_tokens: 2, total_tokens: 3 },
        ChatUsage { input_tokens: 1, output_tokens: 4, total_tokens: 5 },
    );
    assert_eq!(usage, ChatUsage { input_tokens: u64::MAX, output_tokens: 6, total_tokens: 8 });
    let sources = vec![
        MemorySpaceSource { space_id: "a".to_owned(), label: "a".to_owned(), weight: 1, memory: true, semantic_graph: false },
        MemorySpaceSource { space_id: "b".to_owned(), label: "b".to_owned(), weight: 1, memory: true, semantic_graph: true },
    ];
    assert_eq!(maintenance_write_flags(false, Some("b"), &sources), (true, true));
    assert_eq!(maintenance_write_flags(false, Some("a"), &sources), (true, false));
    assert_eq!(maintenance_write_flags(true, Some("b"), &sources), (false, false));
    assert_eq!(maintenance_write_flags(false, Some("c"), &sources), (false, false));
    assert_eq!(maintenance_write_flags(false, None, &sources), (false, false));
}

#[test]
fn character_exports_take_the_selected_characters() {
    let available = vec!["a".to_owned(), "b".to_owned(), "c".to_owned()];
    assert_eq!(momo_core::portable::select_export_characters(&available, &Vec::new()).unwrap(), vec![0, 1, 2]);
    let selected = vec!["c".to_owned(), "a".to_owned(), "c".to_owned()];
    assert_eq!(momo_core::portable::select_export_characters(&available, &selected).unwrap(), vec![0, 2]);
    let missing = vec!["a".to_owned(), "z".to_owned()];
    assert_eq!(
        momo_core::portable::select_export_characters(&available, &missing),
        Err(momo_core::portable::PortableError::InvalidData(
            "a selected character does not exist in its declared owner Space".to_owned()
        ))
    );
}

#[test]
fn moc_imports_check_encryption_and_space_maps() {
    let ok = momo_core::portable::check_moc_encryption(
        "momo-envelope-v1",
        "private/payload.enc",
        "momo-private-moc-v1",
        Some("secret"),
    );
    assert_eq!(ok, Ok(()));
    assert_eq!(
        momo_core::portable::check_moc_encryption("momo-envelope-v1", "private/payload.enc", "momo-private-moc-v1", Some("")),
        Err(momo_core::portable::PortableError::MissingPassphrase)
    );
    assert_eq!(
        momo_core::portable::check_moc_encryption("other", "private/payload.enc", "momo-private-moc-v1", Some("x")),
        Err(momo_core::portable::PortableError::EncryptedMocProfile)
    );
    assert_eq!(
        momo_core::portable::check_private_moc_size(512 * 1024 * 1024 + 1),
        Err(momo_core::portable::PortableError::PrivateMocTooLarge)
    );
    let sources = vec!["s1".to_owned(), "s2".to_owned()];
    let map = vec![("s1".to_owned(), "t1".to_owned()), ("s2".to_owned(), "t2".to_owned())];
    assert_eq!(momo_core::portable::check_space_map(&sources, &map), Ok(()));
    let absent = vec![("s3".to_owned(), "t1".to_owned())];
    assert_eq!(
        momo_core::portable::check_space_map(&sources, &absent),
        Err(momo_core::portable::PortableError::InvalidData(
            "space_map contains a source Space absent from the MOC".to_owned()
        ))
    );
    let collapsed = vec![("s1".to_owned(), "t".to_owned()), ("s2".to_owned(), "t".to_owned())];
    assert_eq!(
        momo_core::portable::check_space_map(&sources, &collapsed),
        Err(momo_core::portable::PortableError::InvalidData(
            "space_map cannot collapse multiple source Spaces into one target Space".to_owned()
        ))
    );
}

#[test]
fn failed_capability_discovery_falls_back_conservatively() {
    let mut warnings = vec!["earlier".to_owned()];
    let found = momo_core::orchestration::GenerationCapability {
        context_window: 128_000,
        max_output_tokens: 4_096,
        supports_images: true,
    };
    assert_eq!(momo_core::orchestration::response_capability(Ok(found), &mut warnings), found);
    assert_eq!(warnings.len(), 1);
    let fallback = momo_core::orchestration::response_capability(Err("timeout".to_owned()), &mut warnings);
    assert_eq!(fallback.context_window, 8_192);
    assert_eq!(fallback.max_output_tokens, 1_024);
    assert!(!fallback.supports_images);
    assert_eq!(warnings, vec!["earlier".to_owned(), "capability discovery degraded: timeout".to_owned()]);
    assert!(momo_core::orchestration::check_image_input(true, false).is_err());
    assert!(momo_core::orchestration::check_image_input(true, true).is_ok());
    assert!(momo_core::orchestration::check_image_input(false, false).is_ok());
}

fn index_document(node: &str, hash: &str) -> momo_core::embedding::IndexDocument {
    momo_core::embedding::IndexDocument {
        node_id: node.to_owned(),
        source_hash: hash.to_owned(),
        content: format!("text of {node}"),
    }
}

fn stored_vector(node: &str, hash: &str, dimension: usize) -> momo_core::embedding::ExistingVector {
    momo_core::embedding::ExistingVector { node_id: node.to_owned(), source_hash: hash.to_owned(), dimension }
}

#[test]
fn reindex_batch_size_must_be_in_range() {
    assert_eq!(check_index_batch_size(0), Err("embedding batch_size must be between 1 and 128".to_owned()));
    assert_eq!(check_index_batch_size(129), Err("embedding batch_size must be between 1 and 128".to_owned()));
    assert!(check_index_batch_size(1).is_ok());
    assert!(check_index_batch_size(128).is_ok());
}

#[test]
fn reindex_plan_reuses_matching_vectors_only_when_incremental() {
    let scope = "67e55044-10b1-426f-9247-bb680e5fe0c8";
    let documents = vec![
        index_document("a", "h1"),
        index_document("b", "h2"),
        index_document("c", "h3"),
        index_document("d", "h4"),
        index_document("e", "h5"),
    ];
    let existing = vec![
        stored_vector("a", "h1", 4),
        stored_vector("b", "old", 4),
        stored_vector("c", "h3", 8),
        stored_vector("d", "h4", 4),
        stored_vector("a", "h1", 4),
    ];
    let plan = plan_nsg_reindex(scope, NsgIndexMode::Incremental, 4, 2, &documents, &existing).unwrap();
    assert_eq!(plan.scope_id, 0x67e5504410b1426f9247bb680e5fe0c8);
    // the last stored vector of a pair wins
    assert_eq!(plan.reused, vec![(0, 4), (3, 3)]);
    assert_eq!(plan.pending, vec![1, 2, 4]);
    assert_eq!(plan.batches, vec![vec![1, 2], vec![4]]);

    let full = plan_nsg_reindex(scope, NsgIndexMode::Full, 4, 2, &documents, &existing).unwrap();
    assert!(full.reused.is_empty());
    assert_eq!(full.pending, vec![0, 1, 2, 3, 4]);
    assert_eq!(full.batches, vec![vec![0, 1], vec![2, 3], vec![4]]);
}

#[test]
fn reindex_plan_refuses_bad_scope_and_batch_size() {
    let documents = vec![index_document("a", "h1")];
    let bad_scope = plan_nsg_reindex("not-a-uuid", NsgIndexMode::Full, 4, 2, &documents, &Vec::new());
    assert_eq!(bad_scope.unwrap_err(), uuid::Uuid::parse_str("not-a-uuid").unwrap_err().to_string());
    let bad_size = plan_nsg_reindex("67e55044-10b1-426f-9247-bb680e5fe0c8", NsgIndexMode::Full, 4, 0, &documents, &Vec::new());
    assert_eq!(bad_size.unwrap_err(), "embedding batch_size must be between 1 and 128");
}

#[test]
fn embedded_batches_must_match_space_and_ids() {
    let nodes = vec!["a".to_owned(), "b".to_owned()];
    assert!(check_embedded_batch("space", "space", &nodes, &nodes).is_ok());
    assert_eq!(
        check_embedded_batch("space", "other", &nodes, &nodes),
        Err("embedding provider returned an unexpected vector space".to_owned())
    );
    let swapped = vec!["b".to_owned(), "a".to_owned()];
    assert_eq!(
        check_embedded_batch("space", "space", &nodes, &swapped),
        Err("embedding response id did not match the NSG document".to_owned())
    );
    // a shorter reply is compared as far as it goes
    assert!(check_embedded_batch("space", "space", &nodes, &vec!["a".to_owned()]).is_ok());
}

#[test]
fn finished_reindex_is_sorted_by_node_and_counted() {
    let record = |node: &str, slot: usize| IndexedVector {
        node_id: node.to_owned(),
        source_hash: "h".to_owned(),
        dimension: 4,
        slot,
    };
    let mut records = vec![record("c", 0), record("a", 1), record("b", 2), record("a", 3)];
    finish_reindex(&mut records);
    let order: Vec<(String, usize)> = records.iter().map(|r| (r.node_id.clone(), r.slot)).collect();
    assert_eq!(
        order,
        vec![("a".to_owned(), 1), ("a".to_owned(), 3), ("b".to_owned(), 2), ("c".to_owned(), 0)]
    );
    let documents = vec![index_document("a", "h"), index_document("b", "h"), index_document("c", "h")];
    let existing = vec![stored_vector("b", "h", 4)];
    let plan =
        plan_nsg_reindex("67e55044-10b1-426f-9247-bb680e5fe0c8", NsgIndexMode::Incremental, 4, 1, &documents, &existing)
            .unwrap();
    let counts = reindex_counts(&plan, &records);
    assert_eq!(counts.node_count, 4);
    assert_eq!(counts.embedded_count, 2);
    assert_eq!(counts.reused_count, 1);
    assert_eq!(counts.batch_count, 2);
}

#[test]
fn sse_chunking_law_holds_for_carriage_returns_without_crlf_delimiters() {
    let stream = b"data: one\r\ndata: more\n\ndata: two\n\n";
    let mut whole = SseDecoder::new();
    let together = whole.push_bytes(stream).expect("whole");
    for cut in 0..stream.len() {
        let mut split = SseDecoder::new();
        let mut events = split.push_bytes(&stream[..cut]).expect("first part");
        events.extend(split.push_bytes(&stream[cut..]).expect("second part"));
        assert_eq!(events, together);
    }
    assert_eq!(together, vec!["one\nmore".to_owned(), "two".to_owned()]);
}

#[test]
fn sse_crlf_delimited_events_can_depend_on_chunking() {
    // A `\r\n\r\n` closes the first event when it arrives alone; buffered
    // together with what follows, the later `\n\n` is found first.
    let first = b"data: x\r\n\r\n";
    let second = b"data: y\n\n";
    let mut split = SseDecoder::new();
    let mut events = split.push_bytes(first).expect("first");
    events.extend(split.push_bytes(second).expect("second"));
    assert_eq!(events, vec!["x".to_owned(), "y".to_owned()]);
    let mut whole = SseDecoder::new();
    let together = whole.push_bytes(&[first.as_slice(), second.as_slice()].concat()).expect("whole");
    assert_eq!(together, vec!["x\ny".to_owned()]);
}
