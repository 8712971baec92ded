use metasyntraxl::config::{ElasticsearchConfig, PrometheusConfig};
use metasyntraxl::errors::MetaSyntraXLError;
use metasyntraxl::retrieval_system::RetrievalSystem;
use metasyntraxl::knowledge_graph::{Entity, KnowledgeGraph, Relationship};
use metasyntraxl::tokenizer::Tokenizer;

#[test]
fn test_add_and_query_entity() {
    let mut kg = KnowledgeGraph::new();

    let properties = vec![
        ("type".to_string(), "person".to_string()),
        ("name".to_string(), "Alice".to_string()),
    ];

    let entity = Entity { id: "1".to_string(), properties };

    kg.add_entity(entity.clone());

    let results = kg.query_entities_by_property("name", "Alice");
    assert_eq!(results.len(), 1);
    assert_eq!(results[0].id, "1");
}

#[test]
fn test_add_and_query_relationship() {
    let mut kg = KnowledgeGraph::new();

    let entity1 = Entity { id: "1".to_string(), properties: Vec::new() };
    let entity2 = Entity { id: "2".to_string(), properties: Vec::new() };

    kg.add_entity(entity1.clone());
    kg.add_entity(entity2.clone());

    let relationship = Relationship {
        from: "1".to_string(),
        to: "2".to_string(),
        type_: "friend".to_string(),
    };

    kg.add_relationship(relationship.clone());

    let relationships = kg.get_relationships_by_type("friend");
    assert_eq!(relationships.len(), 1);
    assert_eq!(relationships[0].from, "1");
    assert_eq!(relationships[0].to, "2");
}

#[test]
fn test_get_connected_entities() {
    let mut kg = KnowledgeGraph::new();

    let entity1 = Entity { id: "1".to_string(), properties: Vec::new() };
    let entity2 = Entity { id: "2".to_string(), properties: Vec::new() };
    let entity3 = Entity { id: "3".to_string(), properties: Vec::new() };

    kg.add_entity(entity1.clone());
    kg.add_entity(entity2.clone());
    kg.add_entity(entity3.clone());

    let relationship1 = Relationship {
        from: "1".to_string(),
        to: "2".to_string(),
        type_: "colleague".to_string(),
    };
    let relationship2 = Relationship {
        from: "1".to_string(),
        to: "3".to_string(),
        type_: "friend".to_string(),
    };

    kg.add_relationship(relationship1.clone());
    kg.add_relationship(relationship2.clone());

    let connected = kg.get_connected_entities("1", "colleague");
    assert_eq!(connected.len(), 1);
    assert_eq!(connected[0].id, "2");

    let connected = kg.get_connected_entities("1", "friend");
    assert_eq!(connected.len(), 1);
    assert_eq!(connected[0].id, "3");
}

#[test]
fn test_add_entity_replaces_same_id() {
    let mut kg = KnowledgeGraph::new();
    kg.add_entity(Entity {
        id: "1".to_string(),
        properties: vec![("name".to_string(), "Alice".to_string())],
    });
    kg.add_entity(Entity {
        id: "1".to_string(),
        properties: vec![("name".to_string(), "Bob".to_string())],
    });
    assert_eq!(kg.query_entities_by_property("name", "Alice").len(), 0);
    let results = kg.query_entities_by_property("name", "Bob");
    assert_eq!(results.len(), 1);
    assert_eq!(kg.entities.len(), 1);
}

#[test]
fn test_tokenizer_encode_known_and_unknown() {
    let mut tok = Tokenizer::new();
    tok.add_word("hello".to_string());
    tok.add_word("world".to_string());
    tok.add_word("<UNK>".to_string());
    assert_eq!(tok.encode("hello world"), vec![0, 1]);
    assert_eq!(tok.encode("world foo hello"), vec![1, 2, 0]);
    assert_eq!(tok.encode("  hello\tworld\n"), vec![0, 1]);
    assert_eq!(tok.encode(""), Vec::<i64>::new());
    assert_eq!(tok.encode("   "), Vec::<i64>::new());
}

#[test]
fn test_tokenizer_decode_joins_with_spaces() {
    let mut tok = Tokenizer::new();
    tok.add_word("hello".to_string());
    tok.add_word("world".to_string());
    assert_eq!(tok.decode(&[0, 1]), "hello world");
    assert_eq!(tok.decode(&[1, 99, 0]), "world <UNK> hello");
    assert_eq!(tok.decode(&[-1]), "<UNK>");
    assert_eq!(tok.decode(&[]), "");
}

#[test]
fn test_tokenizer_round_trip() {
    let mut tok = Tokenizer::new();
    tok.add_word("a".to_string());
    tok.add_word("b".to_string());
    tok.add_word("c".to_string());
    let text = "c a b";
    assert_eq!(tok.decode(&tok.encode(text)), text);
}

#[test]
fn test_config_records() {
    let es = ElasticsearchConfig { url: "http://localhost:9200".to_string(), index: "test_index".to_string() };
    let prom = PrometheusConfig { port: 9090 };
    assert_eq!(es.clone().index, "test_index");
    assert_eq!(prom.clone().port, 9090);
}

#[test]
fn test_retrieval_system_requires_an_index() {
    let missing = RetrievalSystem::new("".to_string());
    assert!(matches!(missing, Err(MetaSyntraXLError::RetrievalError(_))));
    let sys = RetrievalSystem::new("test_index".to_string()).unwrap();
    assert_eq!(sys.es_index, "test_index");
    let docs = sys.retrieve("what is a policy").unwrap();
    assert_eq!(docs, vec!["Retrieved document for query: what is a policy"]);
}
