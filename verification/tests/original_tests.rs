use momo_core::capability::{
    capability_schema_version, CapabilityDiscoveryDocument, CapabilityError, CapabilityProfile,
    CapabilityRegistry, CapabilitySource, TokenizerProfile,
};
use momo_core::context::{
    estimate_text_tokens, prepare_context, prepare_context_with_tokenizer, ChatInput,
    ContextBudget, ContextRequest, ContextSections, MessageRole,
};
use momo_core::control::{MomoControlAction, MomoControlRequest};
use momo_core::embedding::{
    validate_inputs, EmbeddingEndpoint, EmbeddingError, EmbeddingInput, EmbeddingNormalization,
    EmbeddingProfile, EmbeddingPurpose, EmbeddingUsage, ResponseItemShape, VectorCheck,
};
use momo_core::fonts::{normalize_font_bytes_inner, MAX_IMPORTED_FONT_BYTES};
use momo_core::memory::{validate_memory_scopes, weighted_scope_budgets, MemoryScopeSource};
use momo_core::table::StringTable;

fn source(id: &str, label: &str, weight: usize) -> MemoryScopeSource {
    MemoryScopeSource { scope_id: id.to_owned(), label: label.to_owned(), weight }
}

fn message(content: &str) -> ChatInput {
    ChatInput { role: MessageRole::User, content: content.to_owned() }
}

fn request<'a>(
    character: &'a str,
    user: &'a str,
    memory: &'a str,
    messages: &'a [ChatInput],
    budget: ContextBudget,
) -> ContextRequest<'a> {
    ContextRequest {
        sections: ContextSections { character, user, memory, ..ContextSections::default() },
        messages,
        budget,
    }
}

fn models(name: &str, profile: CapabilityProfile) -> StringTable<CapabilityProfile> {
    let mut table = StringTable::new();
    table.insert(name.to_owned(), profile);
    table
}

#[test]
fn scoped_budget_is_weighted_and_conserves_total() {
    let sources = [
        source("00000000-0000-4000-8000-000000000001", "personal", 3),
        source("00000000-0000-4000-8000-000000000002", "room", 2),
    ];
    let budgets = weighted_scope_budgets(&sources, 1_024);
    assert_eq!(budgets, [615, 409]);
    assert_eq!(budgets.iter().sum::<usize>(), 1_024);
}

#[test]
fn scoped_sources_require_unique_valid_ids() {
    let sources = [
        source("00000000-0000-4000-8000-000000000001", "personal", 1),
        source("00000000-0000-4000-8000-000000000001", "room", 1),
    ];
    assert!(validate_memory_scopes(&sources).is_err());
}

#[test]
fn exact_profiles_use_bpe_instead_of_the_character_heuristic() {
    let text = "hello world";
    assert_eq!(TokenizerProfile::Cl100kBase.count(text).expect("count"), 2);
    assert_eq!(TokenizerProfile::O200kBase.count(text).expect("count"), 2);
    assert_eq!(TokenizerProfile::Model("gpt-4o".to_owned()).count(text).expect("count"), 2);
    assert_eq!(TokenizerProfile::Conservative.count(text).expect("count"), 3);
}

#[test]
fn profile_rejects_reserved_and_unadvertised_parameters() {
    let profile = CapabilityProfile::default();
    assert!(matches!(
        profile.validate_request_parameters(&["model"]),
        Err(CapabilityError::ReservedParameter(_))
    ));
    assert!(matches!(
        profile.validate_request_parameters(&["top_k"]),
        Err(CapabilityError::UnsupportedParameter(_))
    ));
    profile.validate_request_parameters(&["top_p", "stop"]).expect("advertised parameters");
}

#[test]
fn unknown_model_mapping_has_an_explicit_safe_fallback() {
    let tokenizer = TokenizerProfile::Model("third-party-unknown".to_owned());
    assert!(matches!(tokenizer.count("你好"), Err(CapabilityError::UnknownTokenizerModel(_))));
    assert_eq!(tokenizer.count_or_conservative("你好"), 2);
}

#[test]
fn registry_uses_valid_cache_then_expires_to_safe_fallback() {
    let mut registry = CapabilityRegistry::default();
    let exact = CapabilityProfile {
        tokenizer: TokenizerProfile::O200kBase,
        context_window: 128_000,
        max_output_tokens: 16_384,
        ..CapabilityProfile::default()
    };
    registry
        .register_document(
            "provider-a",
            CapabilityDiscoveryDocument {
                schema_version: capability_schema_version(),
                ttl_seconds: 60,
                models: models("model-a", exact.clone()),
            },
            1_000,
        )
        .expect("register");

    let cached = registry.resolve("provider-a", "model-a", 1_059);
    assert_eq!(cached.source, CapabilitySource::CachedDiscovery);
    assert_eq!(cached.profile, exact);

    let expired = registry.resolve("provider-a", "model-a", 1_060);
    assert_eq!(expired.source, CapabilitySource::ConservativeFallback);
    assert_eq!(expired.profile.tokenizer, TokenizerProfile::Conservative);
}

#[test]
fn registry_rejects_invalid_profiles_without_replacing_cache() {
    let mut registry = CapabilityRegistry::default();
    let result = registry.register_document(
        "provider-a",
        CapabilityDiscoveryDocument {
            schema_version: capability_schema_version(),
            ttl_seconds: 0,
            models: models(
                "model-a",
                CapabilityProfile { max_output_tokens: 0, ..CapabilityProfile::default() },
            ),
        },
        1_000,
    );
    assert_eq!(result, Err(CapabilityError::InvalidOutputLimit));
    assert_eq!(
        registry.resolve("provider-a", "model-a", 1_000).source,
        CapabilitySource::ConservativeFallback
    );
}

#[test]
fn injects_character_and_user_before_history() {
    let messages = [message("你好")];
    let prepared = prepare_context(request(
        "温柔的向导",
        "用户喜欢简洁回答",
        "曾经去过海边",
        &messages,
        ContextBudget::default(),
    ));
    assert_eq!(prepared.messages[0].role, MessageRole::System);
    assert!(prepared.messages[0].content.contains("# Character"));
    assert!(prepared.messages[0].content.contains("# User"));
    assert!(prepared.messages[0].content.contains("# Relevant Memory"));
    assert_eq!(prepared.omitted_messages, 0);
}

#[test]
fn governed_runtime_instructions_are_system_context_not_trimmable_history() {
    let messages = [message(&"old history ".repeat(200)), message("latest turn")];
    let prepared = prepare_context(ContextRequest {
        sections: ContextSections {
            runtime_instructions: "Always answer in character.",
            character: "A concise guide.",
            ..ContextSections::default()
        },
        messages: &messages,
        budget: ContextBudget { context_window: 256, reserve_output_tokens: 32 },
    });

    let system = &prepared.messages[0].content;
    assert!(system.starts_with("# Runtime Instructions"));
    assert!(system.contains("Always answer in character."));
    assert_eq!(prepared.messages.last().expect("latest").content, "latest turn");
}

#[test]
fn drops_oldest_messages_when_budget_is_full() {
    let messages = vec![message(&"a".repeat(80)), message("newest")];
    let prepared = prepare_context(request(
        "",
        "",
        "",
        &messages,
        ContextBudget { context_window: 160, reserve_output_tokens: 8 },
    ));
    assert_eq!(prepared.messages, vec![message("newest")]);
    assert_eq!(prepared.omitted_messages, 1);
}

#[test]
fn cjk_estimate_is_conservative() {
    assert_eq!(estimate_text_tokens("abcd"), 1);
    assert_eq!(estimate_text_tokens("你好"), 2);
}

#[test]
fn exact_tokenizer_profile_drives_reported_budget() {
    let messages = [message("hello world")];
    let prepared = prepare_context_with_tokenizer(
        request("", "", "", &messages, ContextBudget::default()),
        &TokenizerProfile::Cl100kBase,
    );
    assert_eq!(prepared.estimated_input_tokens, 8);
}

#[test]
fn oversized_system_context_cannot_evict_the_newest_turn() {
    let character = "角色设定".repeat(200);
    let user = "用户设定".repeat(100);
    let memory = "记忆".repeat(200);
    let messages = [message("这是必须保留的最新问题")];
    let prepared = prepare_context(request(
        &character,
        &user,
        &memory,
        &messages,
        ContextBudget { context_window: 256, reserve_output_tokens: 32 },
    ));
    assert_eq!(prepared.messages.last().expect("latest").role, MessageRole::User);
    assert!(prepared.messages.last().expect("latest").content.contains("最新问题"));
    assert!(prepared.estimated_input_tokens <= 96);
    assert!(prepared.truncated_messages >= 1);
}

#[test]
fn oversized_latest_turn_is_truncated_instead_of_silently_dropped() {
    let messages = [message(&format!("start{}end", "中".repeat(100)))];
    let prepared = prepare_context(request(
        "",
        "",
        "",
        &messages,
        ContextBudget { context_window: 180, reserve_output_tokens: 16 },
    ));
    assert_eq!(prepared.messages.len(), 1);
    assert!(prepared.messages[0].content.starts_with("start"));
    assert!(prepared.messages[0].content.ends_with("end"));
    assert_eq!(prepared.omitted_messages, 0);
    assert_eq!(prepared.truncated_messages, 1);
    assert!(prepared.estimated_input_tokens <= 36);
}

#[test]
fn huge_character_preserves_small_relationship_and_state_sections() {
    let messages = [message("Where do we go next?")];
    let character = "Biography detail. ".repeat(4_000);
    for tokenizer in [TokenizerProfile::Cl100kBase, TokenizerProfile::Conservative] {
        let prepared = prepare_context_with_tokenizer(
            ContextRequest {
                sections: ContextSections {
                    runtime_instructions: "Respect the traveler's choices.",
                    character: &character,
                    user: "The traveler trusts Mira.",
                    memory: "Mira promised to meet at dawn.",
                    state: "# Scene\nOnly Eren and the traveler are in the harbor.",
                    semantic_graph: "Mira is a cartographer, not the harbor keeper.",
                },
                messages: &messages,
                budget: ContextBudget { context_window: 512, reserve_output_tokens: 64 },
            },
            &tokenizer,
        );
        let system = &prepared.messages[0].content;
        assert!(system.contains("Mira promised to meet at dawn."));
        assert!(system.contains("Only Eren and the traveler are in the harbor."));
        assert!(system.contains("Respect the traveler's choices."));
        assert_eq!(prepared.section_audit.len(), 6);
        assert!(prepared.section_audit.iter().find(|s| s.section == "character").unwrap().truncated);
        assert!(!prepared.section_audit.iter().find(|s| s.section == "state").unwrap().truncated);
        assert!(prepared.estimated_input_tokens <= 320);
    }
}

#[test]
fn clear_memory_requires_an_explicit_module() {
    let request = MomoControlRequest {
        schema: "momo.control/1.0".to_owned(),
        request_id: "control-1".to_owned(),
        actor_space_id: 0x0190_0000_0000_7000_8000_0000_0000_0001,
        action: MomoControlAction::ClearMemory {
            target_space_id: 0x0190_0000_0000_7000_8000_0000_0000_0002,
            memory: false,
            semantic_graph: false,
        },
    };
    assert!(request.validate().is_err());
}

fn embedding_profile() -> EmbeddingProfile {
    EmbeddingProfile {
        provider_id: "provider".to_owned(),
        endpoint_id: "endpoint".to_owned(),
        model: "embedding-model".to_owned(),
        dimension: 3,
        model_revision: Some("2026-08".to_owned()),
        normalization: EmbeddingNormalization::L2,
        send_dimensions: true,
        query_prefix: "query: ".to_owned(),
        document_prefix: "passage: ".to_owned(),
    }
}

fn canonical_profile_json(profile: &EmbeddingProfile) -> Vec<u8> {
    format!(
        "{{\"schema\":\"momo.embedding-space/1\",\"provider_id\":{:?},\"endpoint_id\":{:?},\"model\":{:?},\"dimension\":{},\"model_revision\":{:?},\"normalization\":\"l2\",\"query_prefix\":{:?},\"document_prefix\":{:?}}}",
        profile.provider_id,
        profile.endpoint_id,
        profile.model,
        profile.dimension,
        profile.model_revision.clone().unwrap_or_default(),
        profile.query_prefix,
        profile.document_prefix,
    )
    .into_bytes()
}

#[test]
fn vector_space_identity_is_deterministic_and_structured() {
    let profile = embedding_profile();
    let first = profile.vector_space_id(&canonical_profile_json(&profile)).expect("space id");
    let second = profile.vector_space_id(&canonical_profile_json(&profile)).expect("space id");
    assert_eq!(first, second);
    assert!(first.starts_with("momo-embedding-v1:"));
    let mut changed = profile;
    changed.dimension = 4;
    assert_ne!(
        first,
        changed.vector_space_id(&canonical_profile_json(&changed)).expect("changed space id")
    );
}

#[test]
fn rejects_duplicate_input_ids() {
    let inputs = vec![
        EmbeddingInput { id: "same".to_owned(), text: "one".to_owned(), purpose: EmbeddingPurpose::Document },
        EmbeddingInput { id: "same".to_owned(), text: "two".to_owned(), purpose: EmbeddingPurpose::Document },
    ];
    assert!(matches!(validate_inputs(&inputs), Err(EmbeddingError::InvalidInput(_))));
}

#[test]
fn endpoint_debug_output_redacts_api_keys() {
    let endpoint = EmbeddingEndpoint {
        base_url: "http://127.0.0.1/v1".to_owned(),
        api_key: Some("top-secret-key".to_owned()),
    };
    let debug = endpoint.debug_text();
    assert!(debug.contains("[REDACTED]"));
    assert!(!debug.contains("top-secret-key"));
}

#[test]
fn plain_sfnt_font_bytes_pass_through() {
    let mut bytes = vec![0_u8; 12];
    bytes[..4].copy_from_slice(&[0x00, 0x01, 0x00, 0x00]);
    assert_eq!(normalize_font_bytes_inner(&bytes).unwrap(), bytes);
}

#[test]
fn unsupported_font_signature_is_rejected() {
    let error = normalize_font_bytes_inner(b"not-a-font!!").unwrap_err();
    assert!(error.contains("Unsupported font format"));
}

#[test]
fn web_font_header_must_match_file_length_and_size_limit() {
    let mut bytes = vec![0_u8; 48];
    bytes[..4].copy_from_slice(b"wOF2");
    bytes[8..12].copy_from_slice(&47_u32.to_be_bytes());
    bytes[16..20].copy_from_slice(&1024_u32.to_be_bytes());
    assert!(normalize_font_bytes_inner(&bytes).unwrap_err().contains("length"));

    bytes[8..12].copy_from_slice(&48_u32.to_be_bytes());
    bytes[16..20].copy_from_slice(&((MAX_IMPORTED_FONT_BYTES + 1) as u32).to_be_bytes());
    assert!(normalize_font_bytes_inner(&bytes).unwrap_err().contains("supported range"));
}

// The response checks below take each vector's numeric verdict as the
// caller computes it: `[1.0, 2.0]` is of the wrong dimension for a profile
// of dimension 3, `[1.0, 0.0, 0.0]` is valid.

#[test]
fn rejects_wrong_response_dimension() {
    let error = embedding_profile()
        .check_response_shape(
            1,
            "embedding-model",
            &None,
            &None,
            &[ResponseItemShape { index: 0, object: None, vector: VectorCheck::Invalid }],
        )
        .expect_err("wrong dimension");
    assert!(matches!(error, EmbeddingError::InvalidResponse(_)));
}

#[test]
fn rejects_unexpected_response_model() {
    let error = embedding_profile()
        .check_response_shape(
            1,
            "different-model",
            &None,
            &None,
            &[ResponseItemShape { index: 0, object: None, vector: VectorCheck::Valid }],
        )
        .expect_err("unexpected model");
    assert!(matches!(error, EmbeddingError::InvalidResponse(_)));
}

#[test]
fn rejects_invalid_openai_response_metadata() {
    let result = embedding_profile().check_response_shape(
        1,
        "embedding-model",
        &Some("list".to_owned()),
        &Some(EmbeddingUsage { prompt_tokens: 2, total_tokens: 1 }),
        &[ResponseItemShape {
            index: 0,
            object: Some("not-an-embedding".to_owned()),
            vector: VectorCheck::Valid,
        }],
    );
    assert!(matches!(result, Err(EmbeddingError::InvalidResponse(_))));
}

#[test]
fn expired_providers_are_counted_as_they_are_dropped() {
    let mut registry = CapabilityRegistry::default();
    for (provider, ttl) in [("short-a", 10u64), ("short-b", 20), ("long", 600)] {
        registry
            .register_document(
                provider,
                CapabilityDiscoveryDocument {
                    schema_version: capability_schema_version(),
                    ttl_seconds: ttl,
                    models: models("model", CapabilityProfile::default()),
                },
                1_000,
            )
            .expect("document");
    }
    assert_eq!(registry.remove_expired(1_020), 2);
    assert_eq!(registry.remove_expired(1_020), 0);
    assert_eq!(registry.resolve("long", "model", 1_020).source, momo_core::capability::CapabilitySource::CachedDiscovery);
}
