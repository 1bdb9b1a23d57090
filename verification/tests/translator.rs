use cai::tools::translator::{TargetLang, TranslateRequest, TranslateRequests, TranslateResult};
use cai::Prompt;

#[test]
fn translate_request_should_not_separate_separators_after_not_empty_char() {
    let request = TranslateRequests::new(
        "hello, world! Are you okay? app.NotSplit".to_string(),
        TargetLang::Japanese,
    )
    .separate_per_limit(1)
    .separators(vec![',', '?', '!', '.']);
    let requests = request.to_requests();
    assert_eq!(requests.len(), 4);
    assert_eq!(
        requests[0],
        TranslateRequest {
            source: "hello,".to_string(),
            target_lang: TargetLang::Japanese
        },
    );
    assert_eq!(
        requests[1],
        TranslateRequest {
            source: "world!".to_string(),
            target_lang: TargetLang::Japanese
        },
    );
    assert_eq!(
        requests[2],
        TranslateRequest {
            source: "Are you okay?".to_string(),
            target_lang: TargetLang::Japanese
        },
    );
    assert_eq!(
        requests[3],
        TranslateRequest {
            source: "app.NotSplit".to_string(),
            target_lang: TargetLang::Japanese
        },
    );
}

#[test]
fn translate_request_should_separate_source_string() {
    let request = TranslateRequests::new(
        "hello, world! Are you okay?".to_string(),
        TargetLang::Japanese,
    )
    .separate_per_limit(2)
    .separators(vec![',', '?', '!']);
    let requests = request.to_requests();
    assert_eq!(requests.len(), 2);
    assert_eq!(
        requests[0],
        TranslateRequest {
            source: "hello, world!".to_string(),
            target_lang: TargetLang::Japanese
        }
    );
    assert_eq!(
        requests[1],
        TranslateRequest {
            source: "Are you okay?".to_string(),
            target_lang: TargetLang::Japanese
        }
    );
}

#[test]
fn no_separators_yield_a_single_request() {
    let request = TranslateRequests::new("hello world".to_string(), TargetLang::English);
    let requests = request.to_requests();
    assert_eq!(requests.len(), 1);
    assert_eq!(requests[0].source, "hello world");
    assert_eq!(requests[0].target_lang, TargetLang::English);
}

#[test]
fn translate_request_prompt_names_the_target_language() {
    let request = TranslateRequest {
        source: "bonjour".to_string(),
        target_lang: TargetLang::English,
    };
    match request.to_prompt() {
        Prompt::Ask(ask) => {
            assert_eq!(
                ask.question,
                "please translate 'bonjour' to en. you should answer only in the target language and result. If there is something like program code in the translation target, please ignore it and output it as is."
            );
            assert_eq!(ask.role_play, None);
        }
        _ => panic!("Unexpected prompt type"),
    }
    assert_eq!(TargetLang::Japanese.to_str(), "ja");
}

#[test]
fn translate_result_renders_source_then_translation() {
    let result = TranslateResult {
        from: TranslateRequest {
            source: "hello".to_string(),
            target_lang: TargetLang::Japanese,
        },
        translated: "konnichiwa".to_string(),
    };
    assert_eq!(result.to_text(), "hello\nkonnichiwa");
}
