use arka::llm::default_generation::format_stage_b_user_prompt;

#[test]
fn stage_b_prompt_requires_source_examples_to_be_self_contained() {
    let chunk = r#"#### HPA Example (`hpa.yaml`)
```yaml
scaleTargetRef:
  kind: Deployment
  name: php-apache
minReplicas: 1
maxReplicas: 10
```"#;
    let prompt = format_stage_b_user_prompt(
        chunk,
        r#"["The HPA scales the php-apache Deployment between 1 and 10 replicas."]"#,
    );

    assert!(prompt.contains("self-contained and answerable without access to the source chunk"));
    assert!(prompt.contains(
        "essential facts from an example, code block, image, diagram, figure, or table"
    ));
    assert!(prompt.contains("Never refer to unspecified context"));
    assert!(prompt.contains("Do not rely on distractors to supply context"));
    assert!(prompt.contains(
        "Base items only on source information that can be restated faithfully as text"
    ));
    assert!(prompt.contains("mcq_omission_reason"));
    assert!(prompt.contains("name: php-apache"));
}
