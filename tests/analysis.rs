use controller_analyzer::{
    analyze_lines, sort_and_save_frequency, AnalyzeError, Block, BlockDetails, BlockType, Data,
    HttpType, LinqSyntax, QueryType, ReturnData, Table,
};

fn data_of(lines: &[&str]) -> Data {
    Data {
        lines: lines.iter().map(|l| l.to_string()).collect(),
        class_name: None,
        blocks: None,
    }
}

fn run(lines: &[&str]) -> Data {
    analyze_lines(data_of(lines)).expect("analysis fails")
}

fn blocks(data: &Data) -> &Vec<Block> {
    data.blocks.as_ref().expect("no blocks")
}

const CONTROLLER: &[&str] = &[
    "namespace Todo.Controllers",
    "{",
    "    public class TestController : Controller",
    "    {",
    "        public TestController(IFactory factory)",
    "        {",
    "        }",
    "",
    "        [HttpGet]",
    "        [Route(\"tasks\")]",
    "        public IActionResult GetTasks(Guid userOid)",
    "        {",
    "            using (var cx = Factory.CreateContext())",
    "            {",
    "                var tasks = cx.UserTasks.Where(t => t.UserOid == userOid).ToList();",
    "                if (tasks != null)",
    "                {",
    "                    return Ok(tasks);",
    "                }",
    "                else",
    "                {",
    "                    return NotFound();",
    "                }",
    "            }",
    "        }",
    "",
    "        [HttpPost]",
    "        public IActionResult AddTask([FromBody] TaskToAdd task, int count)",
    "        {",
    "            var entity = new UserTask()",
    "            {",
    "                Name = task.Name",
    "            };",
    "            return Ok();",
    "        }",
    "",
    "        public void Helper()",
    "        {",
    "        }",
    "    }",
    "}",
];

fn find_block(data: &Data, start: u32) -> &Block {
    blocks(data)
        .iter()
        .find(|b| b.start == start)
        .expect("no block there")
}

#[test]
fn controller_blocks_and_class_name() {
    let data = run(CONTROLLER);
    assert_eq!(data.class_name, Some("TestController".to_string()));
    // ten brace blocks and one discovered query
    assert_eq!(blocks(&data).len(), 11);
    assert_eq!(find_block(&data, 1).block_type, BlockType::Namespace);
    assert_eq!(find_block(&data, 3).block_type, BlockType::Class);
    assert_eq!(find_block(&data, 5).block_type, BlockType::Constructor);
    assert_eq!(find_block(&data, 11).block_type, BlockType::Method);
    assert_eq!(find_block(&data, 13).block_type, BlockType::Context);
    assert_eq!(find_block(&data, 16).block_type, BlockType::If);
    assert_eq!(find_block(&data, 20).block_type, BlockType::If);
    assert_eq!(find_block(&data, 28).block_type, BlockType::Method);
    assert_eq!(find_block(&data, 30).block_type, BlockType::Variable);
    assert_eq!(find_block(&data, 37).block_type, BlockType::Method);
    assert_eq!(find_block(&data, 3).end, Some(39));
}

#[test]
fn method_with_verb_parameters_and_context() {
    let data = run(CONTROLLER);
    let get = find_block(&data, 11);
    assert_eq!(get.end, Some(24));
    assert_eq!(
        get.details,
        Some(BlockDetails::MethodBlock {
            name: "GetTasks".to_string(),
            http_method: Some(HttpType::HttpGet),
            variables: vec![controller_analyzer::Variable {
                name: "userOid".to_string(),
                variable_type: "Guid".to_string(),
            }],
            uses_context: true,
        })
    );
}

#[test]
fn method_parameters_take_the_last_type_seen() {
    let data = run(CONTROLLER);
    match &find_block(&data, 28).details {
        Some(BlockDetails::MethodBlock { name, http_method, variables, uses_context }) => {
            assert_eq!(name, "AddTask");
            assert_eq!(*http_method, Some(HttpType::HttpPost));
            assert_eq!(*uses_context, false);
            assert_eq!(variables.len(), 2);
            assert_eq!(variables[0].name, "task");
            assert_eq!(variables[0].variable_type, "TaskToAdd");
            assert_eq!(variables[1].name, "count");
            assert_eq!(variables[1].variable_type, "int");
        }
        other => panic!("not a method: {:?}", other),
    }
}

#[test]
fn method_without_attribute_has_no_verb() {
    let data = run(CONTROLLER);
    match &find_block(&data, 37).details {
        Some(BlockDetails::MethodBlock { name, http_method, variables, uses_context }) => {
            assert_eq!(name, "Helper");
            assert_eq!(*http_method, None);
            assert!(variables.is_empty());
            assert_eq!(*uses_context, false);
        }
        other => panic!("not a method: {:?}", other),
    }
}

#[test]
fn context_variable_and_conditionals() {
    let data = run(CONTROLLER);
    assert_eq!(
        find_block(&data, 13).details,
        Some(BlockDetails::ContextBlock { variable: "cx".to_string() })
    );
    assert_eq!(
        find_block(&data, 16).details,
        Some(BlockDetails::IfBlock { clause: "tasks != null".to_string(), is_else: false })
    );
    assert_eq!(
        find_block(&data, 20).details,
        Some(BlockDetails::IfBlock { clause: "".to_string(), is_else: true })
    );
}

#[test]
fn variable_type_follows_new() {
    let data = run(CONTROLLER);
    assert_eq!(
        find_block(&data, 30).details,
        Some(BlockDetails::VariableBlock {
            name: "entity".to_string(),
            data_type: "UserTask".to_string(),
        })
    );
}

#[test]
fn variable_without_new_keeps_its_first_token() {
    let data = run(&["var items = cx.Items", "{", "}"]);
    assert_eq!(
        blocks(&data)[0].details,
        Some(BlockDetails::VariableBlock { name: "items".to_string(), data_type: "var".to_string() })
    );
}

#[test]
fn discovered_lambda_query_in_controller() {
    let data = run(CONTROLLER);
    let last = blocks(&data).last().unwrap();
    assert_eq!(last.start, 14);
    assert_eq!(last.end, Some(14));
    assert_eq!(last.block_type, BlockType::Select);
    match &last.details {
        Some(BlockDetails::SelectBlock { query_type, tables, where_clauses, return_data, syntax, has_return }) => {
            assert_eq!(*query_type, QueryType::Many);
            assert_eq!(*syntax, LinqSyntax::Lambda);
            assert_eq!(*has_return, false);
            assert_eq!(tables.len(), 1);
            assert_eq!(where_clauses[0].value, "t.UserOid == userOid");
            assert!(return_data.is_empty());
        }
        other => panic!("not a query: {:?}", other),
    }
}

const LAMBDA: &[&str] = &[
    "public class TestController : Controller",
    "{",
    "    public IActionResult Get(Guid userTaskOid)",
    "    {",
    "        using (var cx = Factory.CreateContext())",
    "        {",
    "            var userTask = cx.UserTasks.Where(t => t.UserTaskOid == userTaskOid).SingleOrDefault();",
    "        }",
    "    }",
    "}",
];

#[test]
fn lambda_query_scenario() {
    let data = run(LAMBDA);
    assert_eq!(blocks(&data).len(), 4);
    let q = &blocks(&data)[3];
    assert_eq!((q.start, q.end), (6, Some(6)));
    match &q.details {
        Some(BlockDetails::SelectBlock { query_type, tables, where_clauses, return_data, syntax, has_return }) => {
            assert_eq!(*query_type, QueryType::Unique);
            assert_eq!(*syntax, LinqSyntax::Lambda);
            assert_eq!(*has_return, false);
            assert_eq!(tables.len(), 1);
            assert_eq!(tables[0].name, "UserTasks");
            assert_eq!(tables[0].shortcut, "cx");
            assert_eq!(tables[0].return_frequency, 0);
            assert_eq!(where_clauses.len(), 1);
            assert_eq!(where_clauses[0].lambda_varible, Some("t".to_string()));
            assert_eq!(where_clauses[0].value, "t.UserTaskOid == userTaskOid");
            assert_eq!(where_clauses[0].shortcut, vec!["t".to_string()]);
            assert_eq!(where_clauses[0].property, vec!["UserTaskOid".to_string()]);
            assert_eq!(return_data.len(), 0);
        }
        other => panic!("not a query: {:?}", other),
    }
}

fn query_expression_lines() -> Vec<String> {
    let mut lines: Vec<String> = vec![String::new(); 61];
    lines.push("            var tasks = (from ut in cx.UserTasks".to_string());
    lines.push("                         join u in cx.Users on ut.UserOid equals u.Oid".to_string());
    lines.push("                         join uts in cx.TaskStatuses on ut.StatusOid equals uts.Oid".to_string());
    lines.push("                         where ut.UserOid == userOid".to_string());
    lines.push("                         select new TaskDto".to_string());
    lines.push("                         {".to_string());
    lines.push("                             Status = uts.Name,".to_string());
    lines.push("                             Oid = ut.Oid,".to_string());
    lines.push("                             Name = ut.Name,".to_string());
    lines.push("                             Owner = u.Name,".to_string());
    lines.push("                             Due = ut.DueDate,".to_string());
    lines.push("                             Done = ut.IsDone,".to_string());
    lines.push("                             Note = ut.Note,".to_string());
    lines.push("                             Created = ut.Created".to_string());
    lines.push("                         }).ToList();".to_string());
    lines
}

#[test]
fn query_expression_scenario() {
    let data = analyze_lines(Data { lines: query_expression_lines(), class_name: None, blocks: None }).unwrap();
    let q = &blocks(&data)[0];
    assert_eq!((q.start, q.end), (66, Some(75)));
    assert_eq!(q.block_type, BlockType::Select);
    match &q.details {
        Some(BlockDetails::SelectBlock { query_type, tables, where_clauses, return_data, syntax, has_return }) => {
            assert_eq!(*query_type, QueryType::Many);
            assert_eq!(*syntax, LinqSyntax::Query);
            assert_eq!(*has_return, false);
            let t: Vec<(String, String, i32)> = tables
                .iter()
                .map(|t| (t.name.clone(), t.shortcut.clone(), t.return_frequency))
                .collect();
            assert_eq!(
                t,
                vec![
                    ("TaskStatuses".to_string(), "uts".to_string(), 1),
                    ("Users".to_string(), "u".to_string(), 1),
                    ("UserTasks".to_string(), "ut".to_string(), 6),
                ]
            );
            assert_eq!(where_clauses.len(), 1);
            assert_eq!(where_clauses[0].shortcut, vec!["ut".to_string()]);
            assert_eq!(where_clauses[0].property, vec!["UserOid".to_string()]);
            assert_eq!(where_clauses[0].value, "where ut.UserOid == userOid");
            assert_eq!(where_clauses[0].lambda_varible, None);
            assert_eq!(return_data.len(), 8);
            let props: Vec<&str> = return_data.iter().map(|r| r.property.as_str()).collect();
            assert_eq!(props, vec!["Oid", "Name", "Due", "Done", "Note", "Created", "Status", "Owner"]);
            assert_eq!(return_data[0].table, "UserTasks");
            assert_eq!(return_data[0].value, "Oid");
            assert_eq!(return_data[6].table, "TaskStatuses");
            assert_eq!(return_data[7].table, "Users");
        }
        other => panic!("not a query: {:?}", other),
    }
}

#[test]
fn first_or_default_and_return_from() {
    let data = run(&[
        "return (from ut in cx.UserTasks",
        "        select new Dto",
        "        {",
        "            Name = x.Name,",
        "            Plain = 5",
        "        }).FirstOrDefault();",
    ]);
    match &blocks(&data)[0].details {
        Some(BlockDetails::SelectBlock { query_type, has_return, return_data, .. }) => {
            assert_eq!(*query_type, QueryType::First);
            assert!(*has_return);
            assert_eq!(return_data.len(), 2);
            assert_eq!(return_data[0].table, "");
            assert_eq!(return_data[0].value, "Name");
            assert_eq!(return_data[1].value, "5");
        }
        other => panic!("not a query: {:?}", other),
    }
}

fn rd(table: &str, property: &str) -> ReturnData {
    ReturnData { table: table.to_string(), property: property.to_string(), value: property.to_string() }
}

fn table(name: &str, shortcut: &str) -> Table {
    Table { name: name.to_string(), shortcut: shortcut.to_string(), joined_tables: vec![], return_frequency: 0 }
}

#[test]
fn frequency_sort_is_stable_and_descending() {
    // tables A, B, C own 1, 6 and 1 projections, A's first in the input
    let mut data = vec![rd("A", "a1")];
    for i in 0..6 {
        data.push(rd("B", &format!("b{}", i)));
    }
    data.push(rd("C", "c1"));
    let (tables, out) = sort_and_save_frequency(vec![table("A", "a"), table("B", "b"), table("C", "c")], &data);
    let freqs: Vec<i32> = tables.iter().map(|t| t.return_frequency).collect();
    assert_eq!(freqs, vec![1, 6, 1]);
    let props: Vec<&str> = out.iter().map(|r| r.property.as_str()).collect();
    assert_eq!(props, vec!["b0", "b1", "b2", "b3", "b4", "b5", "a1", "c1"]);
}

#[test]
fn frequency_of_unowned_projections_counts_empty_table() {
    let data = vec![rd("", "x"), rd("T", "y"), rd("", "z")];
    let (tables, out) = sort_and_save_frequency(vec![table("T", "t")], &data);
    assert_eq!(tables[0].return_frequency, 1);
    let props: Vec<&str> = out.iter().map(|r| r.property.as_str()).collect();
    assert_eq!(props, vec!["x", "z", "y"]);
}

#[test]
fn unbalanced_closer_is_refused() {
    assert_eq!(
        analyze_lines(data_of(&["class A : B", "{", "}", "}"])).err(),
        Some(AnalyzeError::StructuralImbalance { line: 3 })
    );
}

#[test]
fn unclosed_opener_is_refused() {
    assert_eq!(
        analyze_lines(data_of(&["class A : B", "{", "  {", "}"])).err(),
        Some(AnalyzeError::StructuralImbalance { line: 1 })
    );
}

#[test]
fn class_without_separator_is_refused() {
    assert_eq!(
        analyze_lines(data_of(&["public class A", "{", "}"])).err(),
        Some(AnalyzeError::PatternNotFound { line: 0 })
    );
}

#[test]
fn method_without_parenthesis_is_refused() {
    assert_eq!(
        analyze_lines(data_of(&["public string Name", "{", "}"])).err(),
        Some(AnalyzeError::PatternNotFound { line: 0 })
    );
}

#[test]
fn lambda_without_arrow_is_refused() {
    assert_eq!(
        analyze_lines(data_of(&["select x", "{ cx.Items.Where(x)", "}"])).err(),
        Some(AnalyzeError::PatternNotFound { line: 1 })
    );
}

#[test]
fn query_without_terminal_call_is_refused() {
    assert_eq!(
        analyze_lines(data_of(&["select x", "{", "}"])).err(),
        Some(AnalyzeError::PatternNotFound { line: 2 })
    );
}

#[test]
fn opener_and_closer_counts_match_on_success() {
    let data = run(CONTROLLER);
    let openers = CONTROLLER.iter().filter(|l| l.trim_start().starts_with('{')).count();
    let closers = CONTROLLER.iter().filter(|l| l.trim_start().starts_with('}')).count();
    assert_eq!(openers, closers);
    let brace_blocks = blocks(&data).iter().filter(|b| b.start != b.end.unwrap()).count();
    assert_eq!(brace_blocks, openers);
}

#[test]
fn nested_blocks_close_inside_their_parents() {
    let data = run(CONTROLLER);
    let bs = blocks(&data);
    for a in bs.iter() {
        for b in bs.iter() {
            let (ae, be) = (a.end.unwrap(), b.end.unwrap());
            if a.start < b.start && b.start <= ae {
                assert!(be < ae);
            }
        }
    }
}

#[test]
fn analysis_is_deterministic() {
    let a = run(CONTROLLER);
    let b = run(CONTROLLER);
    assert_eq!(format!("{:?}", blocks(&a)), format!("{:?}", blocks(&b)));
    assert_eq!(a.class_name, b.class_name);
}

#[test]
fn tabs_count_as_white_space() {
    let data = run(&["using (var db\t= Factory.CreateContext())", "{", "}"]);
    assert_eq!(
        blocks(&data)[0].details,
        Some(BlockDetails::ContextBlock { variable: "db".to_string() })
    );
}

#[test]
fn unknown_block_carries_no_details() {
    let data = run(&["while (true)", "{", "}"]);
    assert_eq!(blocks(&data)[0].block_type, BlockType::Unknown);
    assert!(blocks(&data)[0].details.is_none());
}

#[test]
fn mutation_drops_a_candidate_query() {
    let data = run(&[
        "using (var cx = Factory.CreateContext())",
        "{",
        "    var x = cx.Items.Add(item);",
        "    var y = cx.Items",
        "        .ToList();",
        "}",
    ]);
    assert_eq!(blocks(&data).len(), 2);
    assert_eq!((blocks(&data)[1].start, blocks(&data)[1].end), (3, Some(4)));
}

#[test]
fn method_scenario_at_fixed_offsets() {
    let mut lines: Vec<String> = vec![String::new(); 153];
    for l in [
        "        public IActionResult UpdateUserTask([FromBody] UserTaskToAdd userTaskDetails)",
        "        {",
        "            using (var cx = Factory.CreateContext())",
        "            {",
        "                var userTask = cx.UserTasks.Where(t => t.UserTaskOid == userTaskDetails.Oid).SingleOrDefault();",
        "                if (userTask != null)",
        "                {",
        "                    userTask.Name = userTaskDetails.Name;",
        "                    cx.SaveChanges();",
        "                }",
        "            }",
        "            return Ok();",
        "        }",
    ] {
        lines.push(l.to_string());
    }
    let data = analyze_lines(Data { lines, class_name: None, blocks: None }).unwrap();
    let methods: Vec<&Block> = blocks(&data).iter().filter(|b| b.block_type == BlockType::Method).collect();
    assert_eq!(methods.len(), 1);
    assert_eq!((methods[0].start, methods[0].end), (154, Some(165)));
    match &methods[0].details {
        Some(BlockDetails::MethodBlock { name, http_method, variables, uses_context }) => {
            assert_eq!(name, "UpdateUserTask");
            assert_eq!(*http_method, None);
            assert_eq!(*uses_context, true);
            assert_eq!(variables.len(), 1);
            assert_eq!(variables[0].name, "userTaskDetails");
            assert_eq!(variables[0].variable_type, "UserTaskToAdd");
        }
        other => panic!("not a method: {:?}", other),
    }
    let queries = blocks(&data).iter().filter(|b| b.block_type == BlockType::Select).count();
    assert_eq!(queries, 1);
    assert_eq!(blocks(&data).len(), 4);
}

#[test]
fn another_class_name() {
    let data = run(&[
        "namespace Other",
        "{",
        "    public class Test2Controller : ControllerBase",
        "    {",
        "        [HttpDelete]",
        "        public IActionResult Remove(Guid oid)",
        "        {",
        "        }",
        "        [HttpPut]",
        "        public IActionResult Put(Guid oid)",
        "        {",
        "        }",
        "    }",
        "}",
    ]);
    assert_eq!(data.class_name, Some("Test2Controller".to_string()));
    assert_eq!(blocks(&data).len(), 4);
    let verbs: Vec<Option<HttpType>> = blocks(&data)
        .iter()
        .filter_map(|b| match &b.details {
            Some(BlockDetails::MethodBlock { http_method, .. }) => Some(*http_method),
            _ => None,
        })
        .collect();
    assert_eq!(verbs, vec![Some(HttpType::HttpDelete), Some(HttpType::HttpPut)]);
}

#[test]
fn tab_indented_braces_are_boundaries() {
    let data = run(&["namespace A", "{", "\t}"]);
    assert_eq!(blocks(&data).len(), 1);
    assert_eq!((blocks(&data)[0].start, blocks(&data)[0].end), (1, Some(2)));
    assert_eq!(
        analyze_lines(data_of(&["\t{"])).err(),
        Some(AnalyzeError::StructuralImbalance { line: 0 })
    );
}

#[test]
fn tab_inside_class_line_is_not_part_of_the_name() {
    let data = run(&["class\tX:Y", "{", "}"]);
    assert_eq!(data.class_name, Some("X".to_string()));
    assert_eq!(blocks(&data)[0].block_type, BlockType::Class);
}

#[test]
fn tab_indented_role_and_attribute_lines() {
    let data = run(&[
        "public class C : B",
        "{",
        "\t[HttpPut]",
        "\tpublic IActionResult Put(Guid oid)",
        "\t{",
        "\t\tif (oid != null)",
        "\t\t{",
        "\t\t}",
        "\t}",
        "}",
    ]);
    assert_eq!(find_block(&data, 6).block_type, BlockType::If);
    assert_eq!(
        find_block(&data, 6).details,
        Some(BlockDetails::IfBlock { clause: "oid != null".to_string(), is_else: false })
    );
    match &find_block(&data, 4).details {
        Some(BlockDetails::MethodBlock { http_method, .. }) => {
            assert_eq!(*http_method, Some(HttpType::HttpPut))
        }
        other => panic!("not a method: {:?}", other),
    }
}

#[test]
fn data_and_blocks_can_be_cloned() {
    let data = run(LAMBDA);
    let copy = data.clone();
    assert_eq!(format!("{:?}", copy.blocks), format!("{:?}", data.blocks));
    let t = table("T", "t");
    assert_eq!(t.clone(), t);
}
